//! Byte-string operations of the builtin runtime: concatenation, slicing,
//! the bitwise suite, and the bit-indexed operations, each with an exact
//! contract over the byte sequence.

use vstd::prelude::*;

verus! {

/// Byte at `i`, or `d` past the end; the identity byte for padded
/// bitwise operations.
pub open spec fn get_or(s: Seq<u8>, i: int, d: u8) -> u8 {
    if 0 <= i < s.len() {
        s[i]
    } else {
        d
    }
}

pub open spec fn max_nat(a: nat, b: nat) -> nat {
    if a >= b {
        a
    } else {
        b
    }
}

pub open spec fn min_nat(a: nat, b: nat) -> nat {
    if a <= b {
        a
    } else {
        b
    }
}

/// Bit `j` of a byte string, least-significant-first within a byte, with
/// byte 0 holding the highest bit indices.
pub open spec fn bit_at(s: Seq<u8>, j: int) -> bool
    recommends
        0 <= j < 8 * s.len(),
{
    (s[s.len() - 1 - j / 8] >> ((j % 8) as u8)) & 1 == 1
}

/// Number of set bits in one byte.
pub open spec fn ones8(b: u8) -> nat {
    (((b >> 0u8) & 1) + ((b >> 1u8) & 1) + ((b >> 2u8) & 1) + ((b >> 3u8) & 1) + ((b >> 4u8) & 1)
        + ((b >> 5u8) & 1) + ((b >> 6u8) & 1) + ((b >> 7u8) & 1)) as nat
}

/// Number of set bits in a byte string.
pub open spec fn count_ones(s: Seq<u8>) -> nat
    decreases s.len(),
{
    if s.len() == 0 {
        0
    } else {
        count_ones(s.drop_last()) + ones8(s.last())
    }
}

pub fn append_bytes(a: &Vec<u8>, b: &Vec<u8>) -> (r: Vec<u8>)
    ensures
        r@ == a@ + b@,
{
    let mut r = vstd::slice::slice_to_vec(a.as_slice());
    let mut i: usize = 0;
    while i < b.len()
        invariant
            i <= b@.len(),
            r@ == a@ + b@.subrange(0, i as int),
        decreases b@.len() - i,
    {
        r.push(b[i]);
        proof {
            assert(a@ + b@.subrange(0, i as int + 1) =~= (a@ + b@.subrange(0, i as int)).push(
                b@[i as int],
            ));
        }
        i += 1;
    }
    proof {
        assert(b@.subrange(0, b@.len() as int) =~= b@);
    }
    r
}

pub fn cons_byte(byte: u8, b: &Vec<u8>) -> (r: Vec<u8>)
    ensures
        r@ == seq![byte] + b@,
{
    let mut r: Vec<u8> = Vec::new();
    r.push(byte);
    proof {
        assert(r@ =~= seq![byte]);
    }
    append_bytes(&r, b)
}

/// The window `[skip, end)` of a byte string.
pub fn slice_bytes(b: &Vec<u8>, skip: usize, end: usize) -> (r: Vec<u8>)
    requires
        skip <= end <= b@.len(),
    ensures
        r@ == b@.subrange(skip as int, end as int),
{
    vstd::slice::slice_to_vec(vstd::slice::slice_subrange(b.as_slice(), skip, end))
}

pub fn reverse_bytes(b: &Vec<u8>) -> (r: Vec<u8>)
    ensures
        r@ == b@.reverse(),
{
    let mut r: Vec<u8> = Vec::new();
    let mut j: usize = b.len();
    while j > 0
        invariant
            j <= b@.len(),
            r@.len() == b@.len() - j,
            forall|k: int| 0 <= k < r@.len() ==> r@[k] == b@[b@.len() - 1 - k],
        decreases j,
    {
        j -= 1;
        r.push(b[j]);
    }
    proof {
        assert(r@ =~= b@.reverse());
    }
    r
}

/// `count` zero bytes in front of `b`: the big-endian left padding.
pub fn pad_left_zeros(b: &Vec<u8>, count: usize) -> (r: Vec<u8>)
    ensures
        r@ == Seq::new(count as nat, |i: int| 0u8) + b@,
{
    let mut r: Vec<u8> = Vec::new();
    let mut i: usize = 0;
    while i < count
        invariant
            i <= count,
            r@ =~= Seq::new(i as nat, |k: int| 0u8),
        decreases count - i,
    {
        r.push(0);
        i += 1;
    }
    append_bytes(&r, b)
}

pub fn replicate_bytes(count: usize, byte: u8) -> (r: Vec<u8>)
    ensures
        r@ == Seq::new(count as nat, |i: int| byte),
{
    let mut r: Vec<u8> = Vec::new();
    let mut i: usize = 0;
    while i < count
        invariant
            i <= count,
            r@ =~= Seq::new(i as nat, |k: int| byte),
        decreases count - i,
    {
        r.push(byte);
        i += 1;
    }
    proof {
        assert(r@ =~= Seq::new(count as nat, |i: int| byte));
    }
    r
}

/// The sequence a padded bitwise AND/OR/XOR produces; `d` is the identity
/// byte supplied for the shorter operand, and the result has the longer
/// length when `pad` is set, the shorter one otherwise.
pub open spec fn zip_len(pad: bool, a: Seq<u8>, b: Seq<u8>) -> nat {
    if pad {
        max_nat(a.len(), b.len())
    } else {
        min_nat(a.len(), b.len())
    }
}

pub fn and_bytes(pad: bool, a: &Vec<u8>, b: &Vec<u8>) -> (r: Vec<u8>)
    ensures
        r@.len() == zip_len(pad, a@, b@),
        forall|i: int|
            0 <= i < r@.len() ==> r@[i] == (get_or(a@, i, 0xFF) & get_or(b@, i, 0xFF)),
{
    let n = if pad {
        if a.len() >= b.len() {
            a.len()
        } else {
            b.len()
        }
    } else {
        if a.len() <= b.len() {
            a.len()
        } else {
            b.len()
        }
    };
    let mut r: Vec<u8> = Vec::new();
    let mut i: usize = 0;
    while i < n
        invariant
            i <= n,
            n == zip_len(pad, a@, b@),
            r@.len() == i,
            forall|k: int|
                0 <= k < i ==> r@[k] == (get_or(a@, k, 0xFF) & get_or(b@, k, 0xFF)),
        decreases n - i,
    {
        let x = if i < a.len() {
            a[i]
        } else {
            0xFF
        };
        let y = if i < b.len() {
            b[i]
        } else {
            0xFF
        };
        r.push(x & y);
        i += 1;
    }
    r
}

pub fn or_bytes(pad: bool, a: &Vec<u8>, b: &Vec<u8>) -> (r: Vec<u8>)
    ensures
        r@.len() == zip_len(pad, a@, b@),
        forall|i: int|
            0 <= i < r@.len() ==> r@[i] == (get_or(a@, i, 0x00) | get_or(b@, i, 0x00)),
{
    let n = if pad {
        if a.len() >= b.len() {
            a.len()
        } else {
            b.len()
        }
    } else {
        if a.len() <= b.len() {
            a.len()
        } else {
            b.len()
        }
    };
    let mut r: Vec<u8> = Vec::new();
    let mut i: usize = 0;
    while i < n
        invariant
            i <= n,
            n == zip_len(pad, a@, b@),
            r@.len() == i,
            forall|k: int|
                0 <= k < i ==> r@[k] == (get_or(a@, k, 0x00) | get_or(b@, k, 0x00)),
        decreases n - i,
    {
        let x = if i < a.len() {
            a[i]
        } else {
            0x00
        };
        let y = if i < b.len() {
            b[i]
        } else {
            0x00
        };
        r.push(x | y);
        i += 1;
    }
    r
}

pub fn xor_bytes(pad: bool, a: &Vec<u8>, b: &Vec<u8>) -> (r: Vec<u8>)
    ensures
        r@.len() == zip_len(pad, a@, b@),
        forall|i: int|
            0 <= i < r@.len() ==> r@[i] == (get_or(a@, i, 0x00) ^ get_or(b@, i, 0x00)),
{
    let n = if pad {
        if a.len() >= b.len() {
            a.len()
        } else {
            b.len()
        }
    } else {
        if a.len() <= b.len() {
            a.len()
        } else {
            b.len()
        }
    };
    let mut r: Vec<u8> = Vec::new();
    let mut i: usize = 0;
    while i < n
        invariant
            i <= n,
            n == zip_len(pad, a@, b@),
            r@.len() == i,
            forall|k: int|
                0 <= k < i ==> r@[k] == (get_or(a@, k, 0x00) ^ get_or(b@, k, 0x00)),
        decreases n - i,
    {
        let x = if i < a.len() {
            a[i]
        } else {
            0x00
        };
        let y = if i < b.len() {
            b[i]
        } else {
            0x00
        };
        r.push(x ^ y);
        i += 1;
    }
    r
}

pub fn complement_bytes(b: &Vec<u8>) -> (r: Vec<u8>)
    ensures
        r@.len() == b@.len(),
        forall|i: int| 0 <= i < r@.len() ==> r@[i] == (b@[i] ^ 0xFF),
{
    let mut r: Vec<u8> = Vec::new();
    let mut i: usize = 0;
    while i < b.len()
        invariant
            i <= b@.len(),
            r@.len() == i,
            forall|k: int| 0 <= k < i ==> r@[k] == (b@[k] ^ 0xFF),
        decreases b@.len() - i,
    {
        r.push(b[i] ^ 0xFF);
        i += 1;
    }
    r
}

/// Lexicographic order on byte strings, the order `LessThanByteString`
/// decides.
pub open spec fn bytes_lex_lt(a: Seq<u8>, b: Seq<u8>) -> bool
    decreases a.len(),
{
    if a.len() == 0 {
        b.len() > 0
    } else if b.len() == 0 {
        false
    } else if a.first() < b.first() {
        true
    } else if a.first() > b.first() {
        false
    } else {
        bytes_lex_lt(a.drop_first(), b.drop_first())
    }
}

pub fn bytes_lt(a: &Vec<u8>, b: &Vec<u8>) -> (r: bool)
    ensures
        r == bytes_lex_lt(a@, b@),
{
    let mut i: usize = 0;
    proof {
        assert(a@.subrange(0, a@.len() as int) =~= a@);
        assert(b@.subrange(0, b@.len() as int) =~= b@);
    }
    loop
        invariant
            i <= a@.len(),
            i <= b@.len(),
            forall|k: int| 0 <= k < i ==> a@[k] == b@[k],
            bytes_lex_lt(a@, b@) == bytes_lex_lt(
                a@.subrange(i as int, a@.len() as int),
                b@.subrange(i as int, b@.len() as int),
            ),
        decreases a@.len() - i,
    {
        proof {
            let ar = a@.subrange(i as int, a@.len() as int);
            let br = b@.subrange(i as int, b@.len() as int);
            if i < a@.len() && i < b@.len() && a@[i as int] == b@[i as int] {
                assert(ar.drop_first() =~= a@.subrange(i as int + 1, a@.len() as int));
                assert(br.drop_first() =~= b@.subrange(i as int + 1, b@.len() as int));
            }
        }
        if i >= a.len() {
            return i < b.len();
        }
        if i >= b.len() {
            return false;
        }
        if a[i] < b[i] {
            return true;
        }
        if a[i] > b[i] {
            return false;
        }
        i += 1;
    }
}

proof fn lemma_u8_or_bit(x: u8, k: u8, k2: u8)
    by (bit_vector)
    requires
        k < 8,
        k2 < 8,
    ensures
        k2 == k ==> ((x | (1u8 << k)) >> k2) & 1 == 1,
        k2 != k ==> ((x | (1u8 << k)) >> k2) & 1 == (x >> k2) & 1,
{
}

proof fn lemma_u8_clear_bit(x: u8, k: u8, k2: u8)
    by (bit_vector)
    requires
        k < 8,
        k2 < 8,
    ensures
        k2 == k ==> ((x & !(1u8 << k)) >> k2) & 1 == 0,
        k2 != k ==> ((x & !(1u8 << k)) >> k2) & 1 == (x >> k2) & 1,
{
}

proof fn lemma_u8_zero_bit(k: u8)
    by (bit_vector)
    requires
        k < 8,
    ensures
        (0u8 >> k) & 1 == 0,
{
}

/// Each bit of one byte of the string, as the string's bits.
proof fn lemma_bit_index_split(n: int, j: int)
    by (nonlinear_arith)
    requires
        0 <= j,
    ensures
        (8 * n + j) / 8 == n + j / 8,
        (8 * n + j) % 8 == j % 8,
{
}

/// Unpacks a byte string into its bits, lowest bit index first.
pub fn to_bits(b: &Vec<u8>) -> (r: Vec<bool>)
    ensures
        r@.len() == 8 * b@.len(),
        forall|j: int| 0 <= j < r@.len() ==> r@[j] == bit_at(b@, j),
{
    let n = b.len();
    let mut r: Vec<bool> = Vec::new();
    let mut cnt: usize = 0;
    while cnt < n
        invariant
            cnt <= n,
            n == b@.len(),
            r@.len() == 8 * cnt,
            forall|j: int| 0 <= j < r@.len() ==> r@[j] == bit_at(b@, j),
        decreases n - cnt,
    {
        let byte = b[n - 1 - cnt];
        let mut k: usize = 0;
        while k < 8
            invariant
                k <= 8,
                cnt < n,
                n == b@.len(),
                byte == b@[n - 1 - cnt],
                r@.len() == 8 * cnt + k,
                forall|j: int| 0 <= j < r@.len() ==> r@[j] == bit_at(b@, j),
            decreases 8 - k,
        {
            proof {
                lemma_bit_index_split(cnt as int, k as int);
                assert(bit_at(b@, 8 * cnt + k) == ((b@[n - 1 - cnt] >> (k as u8)) & 1 == 1));
            }
            r.push((byte >> (k as u8)) & 1 == 1);
            k += 1;
        }
        cnt += 1;
    }
    r
}

/// Packs bits back into `n` bytes; the inverse of `to_bits`.
pub fn from_bits(bits: &Vec<bool>, n: usize) -> (r: Vec<u8>)
    requires
        bits@.len() == 8 * n,
    ensures
        r@.len() == n,
        forall|j: int| 0 <= j < 8 * n ==> bit_at(r@, j) == bits@[j],
{
    let total = bits.len();
    let mut r: Vec<u8> = Vec::new();
    let mut cnt: usize = n;
    while cnt > 0
        invariant
            cnt <= n,
            total == bits@.len() == 8 * n,
            r@.len() == n - cnt,
            forall|i: int, k: u8|
                0 <= i < r@.len() && k < 8 ==> ((#[trigger] (r@[i] >> k)) & 1 == 1) == bits@[8 * (n
                    - 1 - i) + k],
        decreases cnt,
    {
        cnt -= 1;
        proof {
            assert(8 * cnt < total);
        }
        let base = 8 * cnt;
        let mut acc: u8 = 0;
        let mut k: usize = 0;
        proof {
            assert forall|k2: u8| k2 < 8 implies (acc >> k2) & 1 == 0 by {
                lemma_u8_zero_bit(k2);
            }
        }
        while k < 8
            invariant
                k <= 8,
                cnt < n,
                base == 8 * cnt,
                total == bits@.len() == 8 * n,
                forall|k2: u8| k2 < k ==> ((#[trigger] (acc >> k2)) & 1 == 1) == bits@[base + k2],
                forall|k2: u8| k <= k2 < 8 ==> (#[trigger] (acc >> k2)) & 1 == 0,
            decreases 8 - k,
        {
            proof {
                assert(base + k < total);
            }
            let bitv = bits[base + k];
            if bitv {
                let ghost acc0 = acc;
                acc = acc | (1u8 << (k as u8));
                proof {
                    assert forall|k2: u8| k2 < k + 1 implies ((#[trigger] (acc >> k2)) & 1 == 1)
                        == bits@[base + k2] by {
                        lemma_u8_or_bit(acc0, k as u8, k2);
                        if k2 < k {
                            assert(((acc0 >> k2) & 1 == 1) == bits@[base + k2]);
                        }
                    }
                    assert forall|k2: u8| k + 1 <= k2 < 8 implies (#[trigger] (acc >> k2)) & 1
                        == 0 by {
                        lemma_u8_or_bit(acc0, k as u8, k2);
                        assert((acc0 >> k2) & 1 == 0);
                    }
                }
            } else {
                proof {
                    assert forall|k2: u8| k2 < k + 1 implies ((#[trigger] (acc >> k2)) & 1 == 1)
                        == bits@[base + k2] by {
                        if k2 == k as u8 {
                            assert((acc >> k2) & 1 == 0);
                        }
                    }
                }
            }
            k += 1;
        }
        r.push(acc);
        proof {
            assert forall|i: int, k2: u8|
                0 <= i < r@.len() && k2 < 8 implies ((#[trigger] (r@[i] >> k2)) & 1 == 1)
                == bits@[8 * (n - 1 - i) + k2] by {
                if i == r@.len() - 1 {
                    assert(r@[i] == acc);
                    assert(8 * (n - 1 - i) == base);
                }
            }
        }
    }
    proof {
        assert forall|j: int| 0 <= j < 8 * n implies bit_at(r@, j) == bits@[j] by {
            let i = r@.len() - 1 - j / 8;
            lemma_bit_index_split(j / 8, j % 8);
            assert(8 * (j / 8) + j % 8 == j);
            assert(0 <= j / 8 < n);
            assert(bit_at(r@, j) == ((r@[i] >> ((j % 8) as u8)) & 1 == 1));
            assert(8 * (n - 1 - i) + j % 8 == j);
        }
    }
    r
}

/// Shifts the bits of `b` by `amount` positions, toward higher bit indices
/// when `left` is set; vacated positions are zero and the length is kept.
pub fn shift_bytes(b: &Vec<u8>, left: bool, amount: u128) -> (r: Vec<u8>)
    ensures
        r@.len() == b@.len(),
        forall|j: int|
            0 <= j < 8 * b@.len() ==> bit_at(r@, j) == {
                let src = if left {
                    j - amount
                } else {
                    j + amount
                };
                0 <= src < 8 * b@.len() && bit_at(b@, src)
            },
{
    let bits = to_bits(b);
    let total = bits.len();
    let mut out: Vec<bool> = Vec::new();
    let mut j: usize = 0;
    while j < total
        invariant
            j <= total,
            total == bits@.len() == 8 * b@.len(),
            forall|j2: int| 0 <= j2 < bits@.len() ==> bits@[j2] == bit_at(b@, j2),
            out@.len() == j,
            forall|j2: int|
                0 <= j2 < j ==> out@[j2] == {
                    let src = if left {
                        j2 - amount
                    } else {
                        j2 + amount
                    };
                    0 <= src < 8 * b@.len() && bit_at(b@, src)
                },
        decreases total - j,
    {
        let bit = if left {
            if (j as u128) >= amount {
                bits[j - (amount as usize)]
            } else {
                false
            }
        } else {
            if amount < (total as u128) && (j as u128) + amount < (total as u128) {
                bits[j + (amount as usize)]
            } else {
                false
            }
        };
        out.push(bit);
        j += 1;
    }
    from_bits(&out, b.len())
}

/// Rotates the bits of `b` left by `amount` positions, cyclically.
pub fn rotate_bytes(b: &Vec<u8>, amount: u128) -> (r: Vec<u8>)
    requires
        amount < 8 * b@.len(),
    ensures
        r@.len() == b@.len(),
        forall|j: int|
            0 <= j < 8 * b@.len() ==> bit_at(r@, j) == bit_at(b@, (j - amount) % (8 * b@.len() as int)),
{
    let bits = to_bits(b);
    let total = bits.len();
    let mut out: Vec<bool> = Vec::new();
    let mut j: usize = 0;
    while j < total
        invariant
            j <= total,
            total == bits@.len() == 8 * b@.len(),
            amount < total,
            forall|j2: int| 0 <= j2 < bits@.len() ==> bits@[j2] == bit_at(b@, j2),
            out@.len() == j,
            forall|j2: int|
                0 <= j2 < j ==> out@[j2] == bit_at(b@, (j2 - amount) % (8 * b@.len() as int)),
        decreases total - j,
    {
        let src = if (j as u128) >= amount {
            j - (amount as usize)
        } else {
            j + (total - (amount as usize))
        };
        proof {
            let m = 8 * b@.len() as int;
            if (j as u64) >= amount {
                vstd::arithmetic::div_mod::lemma_small_mod((j - amount) as nat, m as nat);
            } else {
                vstd::arithmetic::div_mod::lemma_mod_add_multiples_vanish(j - amount, m);
                vstd::arithmetic::div_mod::lemma_small_mod((j - amount + m) as nat, m as nat);
                assert((j - amount) % m == j - amount + m);
            }
        }
        out.push(bits[src]);
        j += 1;
    }
    from_bits(&out, b.len())
}

/// The byte string with bit `j` set or cleared.
pub open spec fn write_bit_seq(s: Seq<u8>, j: int, bit: bool) -> Seq<u8>
    recommends
        0 <= j < 8 * s.len(),
{
    let ix = s.len() - 1 - j / 8;
    let mask = 1u8 << ((j % 8) as u8);
    s.update(
        ix,
        if bit {
            s[ix] | mask
        } else {
            s[ix] & !mask
        },
    )
}

/// The byte string after every listed bit is written; later indices are
/// applied last, though the result does not depend on the order.
pub open spec fn write_bits_seq(s: Seq<u8>, ixs: Seq<int>, bit: bool) -> Seq<u8>
    decreases ixs.len(),
{
    if ixs.len() == 0 {
        s
    } else {
        write_bit_seq(write_bits_seq(s, ixs.drop_last(), bit), ixs.last(), bit)
    }
}

/// Writes one bit given as byte quotient and offset.
pub fn set_bit_split(v: &mut Vec<u8>, q: usize, off: u8, bit: bool)
    requires
        q < old(v)@.len(),
        off < 8,
    ensures
        final(v)@ == write_bit_seq(old(v)@, 8 * q + off, bit),
{
    proof {
        lemma_bit_index_split(q as int, off as int);
    }
    let ix = v.len() - 1 - q;
    let old_b = v[ix];
    let nb = if bit {
        old_b | (1u8 << off)
    } else {
        old_b & !(1u8 << off)
    };
    v.set(ix, nb);
}

/// Finds the least set bit index, reported as (bytes from the end, bit
/// within the byte); `None` when every bit is clear.
pub fn find_first_set(b: &Vec<u8>) -> (r: Option<(usize, u8)>)
    ensures
        match r {
            Some(p) => {
                &&& p.0 < b@.len()
                &&& p.1 < 8
                &&& bit_at(b@, 8 * p.0 + p.1)
                &&& forall|k: int| 0 <= k < 8 * p.0 + p.1 ==> !bit_at(b@, k)
            },
            None => forall|k: int| 0 <= k < 8 * b@.len() ==> !bit_at(b@, k),
        },
{
    let n = b.len();
    let mut cnt: usize = 0;
    while cnt < n
        invariant
            cnt <= n,
            n == b@.len(),
            forall|k: int| 0 <= k < 8 * cnt ==> !bit_at(b@, k),
        decreases n - cnt,
    {
        let byte = b[n - 1 - cnt];
        if byte != 0 {
            let mut k: u8 = 0;
            while k < 8
                invariant
                    k <= 8,
                    cnt < n,
                    n == b@.len(),
                    byte == b@[n - 1 - cnt],
                    forall|k2: int| 0 <= k2 < 8 * cnt ==> !bit_at(b@, k2),
                    forall|k2: u8| k2 < k ==> (#[trigger] (byte >> k2)) & 1 == 0,
                decreases 8 - k,
            {
                if (byte >> k) & 1 == 1 {
                    proof {
                        lemma_bit_index_split(cnt as int, k as int);
                        assert(bit_at(b@, 8 * cnt + k));
                        assert forall|k2: int| 0 <= k2 < 8 * cnt + k implies !bit_at(b@, k2) by {
                            if k2 >= 8 * cnt {
                                lemma_bit_index_split(cnt as int, k2 - 8 * cnt);
                                assert(bit_at(b@, k2) == ((b@[n - 1 - cnt] >> (((k2 - 8 * cnt)
                                    % 8) as u8)) & 1 == 1));
                            }
                        }
                    }
                    return Some((cnt, k));
                }
                proof {
                    assert((byte >> k) & 1 == 0) by (bit_vector)
                        requires
                            (byte >> k) & 1 != 1,
                    ;
                }
                k += 1;
            }
            proof {
                // a nonzero byte has a set bit among its eight
                assert(byte == 0) by (bit_vector)
                    requires
                        (byte >> 0u8) & 1 == 0,
                        (byte >> 1u8) & 1 == 0,
                        (byte >> 2u8) & 1 == 0,
                        (byte >> 3u8) & 1 == 0,
                        (byte >> 4u8) & 1 == 0,
                        (byte >> 5u8) & 1 == 0,
                        (byte >> 6u8) & 1 == 0,
                        (byte >> 7u8) & 1 == 0,
                ;
            }
        } else {
            proof {
                assert forall|k2: int| 8 * cnt <= k2 < 8 * (cnt + 1) implies !bit_at(b@, k2) by {
                    lemma_bit_index_split(cnt as int, k2 - 8 * cnt);
                    lemma_u8_zero_bit(((k2 - 8 * cnt) % 8) as u8);
                    assert(b@[n - 1 - cnt] == 0);
                }
            }
        }
        cnt += 1;
    }
    None
}

/// Relies on hamming::weight: the number of one-bits in the byte slice.
#[verifier::external_body]
pub fn popcount(b: &Vec<u8>) -> (r: u64)
    ensures
        r as nat == count_ones(b@),
{
    hamming::weight(b.as_slice())
}

/// A byte and its complement together hold eight set bits.
pub proof fn lemma_ones8_complement(b: u8)
    ensures
        ones8(b ^ 0xFF) + ones8(b) == 8,
{
    assert(ones8(b ^ 0xFF) + ones8(b) == 8) by (bit_vector);
}

/// A byte string and its complement together hold one set bit per bit
/// position.
pub proof fn lemma_count_ones_complement(s: Seq<u8>, c: Seq<u8>)
    requires
        c.len() == s.len(),
        forall|i: int| 0 <= i < s.len() ==> c[i] == (s[i] ^ 0xFF),
    ensures
        count_ones(c) + count_ones(s) == 8 * s.len(),
    decreases s.len(),
{
    if s.len() > 0 {
        lemma_count_ones_complement(s.drop_last(), c.drop_last());
        lemma_ones8_complement(s.last());
        assert(c.last() == (s.last() ^ 0xFF));
    }
}


/// A zero-or-one summand for one bit.
pub open spec fn bit01(b: bool) -> u8 {
    if b {
        1
    } else {
        0
    }
}

/// The byte whose bit `k` is `f(base + k)`.
pub open spec fn pack8(f: spec_fn(int) -> bool, base: int) -> u8 {
    (bit01(f(base)) + 2 * bit01(f(base + 1)) + 4 * bit01(f(base + 2)) + 8 * bit01(f(base + 3)) + 16
        * bit01(f(base + 4)) + 32 * bit01(f(base + 5)) + 64 * bit01(f(base + 6)) + 128 * bit01(
        f(base + 7),
    )) as u8
}

/// The byte string of `n` bytes whose bit `j` (in `bit_at` orientation) is
/// `f(j)`.
pub open spec fn bits_to_bytes(n: nat, f: spec_fn(int) -> bool) -> Seq<u8> {
    Seq::new(n, |i: int| pack8(f, 8 * (n - 1 - i)))
}

proof fn lemma_pack8_bit(f: spec_fn(int) -> bool, base: int, k: u8)
    requires
        k < 8,
    ensures
        ((pack8(f, base) >> k) & 1 == 1) == f(base + k),
{
    let b0 = bit01(f(base));
    let b1 = bit01(f(base + 1));
    let b2 = bit01(f(base + 2));
    let b3 = bit01(f(base + 3));
    let b4 = bit01(f(base + 4));
    let b5 = bit01(f(base + 5));
    let b6 = bit01(f(base + 6));
    let b7 = bit01(f(base + 7));
    assert(((((b0 + 2 * b1 + 4 * b2 + 8 * b3 + 16 * b4 + 32 * b5 + 64 * b6 + 128 * b7) as u8) >> k)
        & 1 == 1) == (if k == 0 {
        b0 == 1
    } else if k == 1 {
        b1 == 1
    } else if k == 2 {
        b2 == 1
    } else if k == 3 {
        b3 == 1
    } else if k == 4 {
        b4 == 1
    } else if k == 5 {
        b5 == 1
    } else if k == 6 {
        b6 == 1
    } else {
        b7 == 1
    })) by (bit_vector)
        requires
            b0 <= 1 && b1 <= 1 && b2 <= 1 && b3 <= 1 && b4 <= 1 && b5 <= 1 && b6 <= 1 && b7 <= 1
                && k < 8,
    ;
}

/// `bits_to_bytes` places each bit where `bit_at` reads it.
pub proof fn lemma_bits_to_bytes_bit_at(n: nat, f: spec_fn(int) -> bool, j: int)
    requires
        0 <= j < 8 * n,
    ensures
        bit_at(bits_to_bytes(n, f), j) == f(j),
{
    let s = bits_to_bytes(n, f);
    let i = s.len() - 1 - j / 8;
    lemma_bit_index_split(j / 8, j % 8);
    assert(0 <= j / 8 < n) by (nonlinear_arith)
        requires
            0 <= j < 8 * n,
    ;
    assert(s[i] == pack8(f, 8 * (n - 1 - i)));
    assert(8 * (n - 1 - i) == 8 * (j / 8));
    lemma_pack8_bit(f, 8 * (j / 8), (j % 8) as u8);
    assert(8 * (j / 8) + j % 8 == j);
}

/// Two byte strings of equal length with equal bits are equal.
pub proof fn lemma_bytes_bit_ext(a: Seq<u8>, b: Seq<u8>)
    requires
        a.len() == b.len(),
        forall|j: int| 0 <= j < 8 * a.len() ==> bit_at(a, j) == bit_at(b, j),
    ensures
        a == b,
{
    assert forall|i: int| 0 <= i < a.len() implies a[i] == b[i] by {
        let x = a[i];
        let y = b[i];
        assert forall|k: u8| k < 8 implies #[trigger] ((x >> k) & 1) == ((y >> k) & 1) by {
            let j = 8 * (a.len() - 1 - i) + k;
            assert(0 <= j < 8 * a.len()) by (nonlinear_arith)
                requires
                    0 <= i < a.len(),
                    k < 8,
                    j == 8 * (a.len() - 1 - i) + k,
            ;
            lemma_bit_index_split(a.len() - 1 - i, k as int);
            assert(bit_at(a, j) == ((x >> k) & 1 == 1));
            assert(bit_at(b, j) == ((y >> k) & 1 == 1));
            assert((x >> k) & 1 == 0 || (x >> k) & 1 == 1) by (bit_vector);
            assert((y >> k) & 1 == 0 || (y >> k) & 1 == 1) by (bit_vector);
        }
        assert((x >> 0u8) & 1 == (y >> 0u8) & 1);
        assert((x >> 1u8) & 1 == (y >> 1u8) & 1);
        assert((x >> 2u8) & 1 == (y >> 2u8) & 1);
        assert((x >> 3u8) & 1 == (y >> 3u8) & 1);
        assert((x >> 4u8) & 1 == (y >> 4u8) & 1);
        assert((x >> 5u8) & 1 == (y >> 5u8) & 1);
        assert((x >> 6u8) & 1 == (y >> 6u8) & 1);
        assert((x >> 7u8) & 1 == (y >> 7u8) & 1);
        assert(x == y) by (bit_vector)
            requires
                (x >> 0u8) & 1 == (y >> 0u8) & 1,
                (x >> 1u8) & 1 == (y >> 1u8) & 1,
                (x >> 2u8) & 1 == (y >> 2u8) & 1,
                (x >> 3u8) & 1 == (y >> 3u8) & 1,
                (x >> 4u8) & 1 == (y >> 4u8) & 1,
                (x >> 5u8) & 1 == (y >> 5u8) & 1,
                (x >> 6u8) & 1 == (y >> 6u8) & 1,
                (x >> 7u8) & 1 == (y >> 7u8) & 1,
        ;
    }
    assert(a =~= b);
}

/// The least set bit index from `j` on; -1 when none.
pub open spec fn ffs_from(b: Seq<u8>, j: int) -> int
    decreases 8 * b.len() - j,
{
    if j < 0 || j >= 8 * b.len() {
        -1
    } else if bit_at(b, j) {
        j
    } else {
        ffs_from(b, j + 1)
    }
}

pub proof fn lemma_ffs_from_found(b: Seq<u8>, i: int, j: int)
    requires
        0 <= i <= j < 8 * b.len(),
        bit_at(b, j),
        forall|k: int| i <= k < j ==> !bit_at(b, k),
    ensures
        ffs_from(b, i) == j,
    decreases j - i,
{
    if i < j {
        lemma_ffs_from_found(b, i + 1, j);
    }
}

pub proof fn lemma_ffs_from_none(b: Seq<u8>, i: int)
    requires
        0 <= i,
        forall|k: int| i <= k < 8 * b.len() ==> !bit_at(b, k),
    ensures
        ffs_from(b, i) == -1,
    decreases 8 * b.len() - i,
{
    if i < 8 * b.len() {
        lemma_ffs_from_none(b, i + 1);
    }
}


/// Complementing twice returns the original byte string.
pub proof fn lemma_complement_involution(b: Seq<u8>)
    ensures
        Seq::new(
            Seq::new(b.len(), |i: int| b[i] ^ 0xFF).len(),
            |i: int| Seq::new(b.len(), |k: int| b[k] ^ 0xFF)[i] ^ 0xFF,
        ) == b,
{
    let c = Seq::new(b.len(), |i: int| b[i] ^ 0xFF);
    let cc = Seq::new(c.len(), |i: int| c[i] ^ 0xFF);
    assert forall|i: int| 0 <= i < b.len() implies cc[i] == b[i] by {
        let x = b[i];
        assert((x ^ 0xFF) ^ 0xFF == x) by (bit_vector);
    }
    assert(cc =~= b);
}

/// Opposite remainders by the bit count: the rotation amounts of `n` and
/// `-n` are zero together or sum to the modulus.
proof fn lemma_fmod_opposite(n: int, m: int)
    requires
        m > 0,
    ensures
        crate::bigint::fmod(n, m) == 0 <==> crate::bigint::fmod(-n, m) == 0,
        crate::bigint::fmod(n, m) != 0 ==> crate::bigint::fmod(-n, m) == m - crate::bigint::fmod(
            n,
            m,
        ),
{
    crate::bigint::lemma_fmod_pos(n, m);
    crate::bigint::lemma_fmod_pos(-n, m);
    let a = n % m;
    let b = (-n) % m;
    vstd::arithmetic::div_mod::lemma_add_mod_noop(n, -n, m);
    vstd::arithmetic::div_mod::lemma_small_mod(0, m as nat);
    assert((a + b) % m == 0);
    if a + b < m {
        vstd::arithmetic::div_mod::lemma_small_mod((a + b) as nat, m as nat);
    } else {
        vstd::arithmetic::div_mod::lemma_mod_add_multiples_vanish(a + b - m, m);
        vstd::arithmetic::div_mod::lemma_small_mod((a + b - m) as nat, m as nat);
    }
}

/// Rotating by `n` and then by `-n` returns the original byte string; the
/// amounts are reduced by the bit count and the rotation is cyclic, exactly
/// as the rotate builtin's specification constructs its result.
pub proof fn lemma_rotate_inverse(b: Seq<u8>, n: int)
    requires
        b.len() > 0,
    ensures
        ({
            let m = 8 * b.len() as int;
            let r1 = crate::bigint::fmod(n, m);
            let fwd = if r1 == 0 {
                b
            } else {
                bits_to_bytes(b.len(), |j: int| bit_at(b, (j - r1) % m))
            };
            let r2 = crate::bigint::fmod(-n, m);
            let back = if r2 == 0 {
                fwd
            } else {
                bits_to_bytes(fwd.len(), |j: int| bit_at(fwd, (j - r2) % m))
            };
            back == b
        }),
{
    let m = 8 * b.len() as int;
    let r1 = crate::bigint::fmod(n, m);
    let r2 = crate::bigint::fmod(-n, m);
    crate::bigint::lemma_fmod_pos(n, m);
    crate::bigint::lemma_fmod_pos(-n, m);
    lemma_fmod_opposite(n, m);
    if r1 != 0 {
        let f1 = |j: int| bit_at(b, (j - r1) % m);
        let fwd = bits_to_bytes(b.len(), f1);
        let f2 = |j: int| bit_at(fwd, (j - r2) % m);
        let back = bits_to_bytes(fwd.len(), f2);
        assert(fwd.len() == b.len());
        assert forall|j: int| 0 <= j < 8 * b.len() implies bit_at(back, j) == bit_at(b, j) by {
            lemma_bits_to_bytes_bit_at(fwd.len(), f2, j);
            let x = (j - r2) % m;
            if j >= r2 {
                vstd::arithmetic::div_mod::lemma_small_mod((j - r2) as nat, m as nat);
            } else {
                vstd::arithmetic::div_mod::lemma_mod_add_multiples_vanish(j - r2, m);
                vstd::arithmetic::div_mod::lemma_small_mod((j - r2 + m) as nat, m as nat);
            }
            assert(0 <= x < m);
            lemma_bits_to_bytes_bit_at(b.len(), f1, x);
            assert(bit_at(back, j) == bit_at(b, (x - r1) % m));
            if j >= r2 {
                assert(x == j - r2);
                assert(x - r1 == j - m);
                vstd::arithmetic::div_mod::lemma_mod_add_multiples_vanish(j - m, m);
                vstd::arithmetic::div_mod::lemma_small_mod(j as nat, m as nat);
                assert((j - m) % m == j);
            } else {
                assert(x == j - r2 + m);
                assert(x - r1 == j);
                vstd::arithmetic::div_mod::lemma_small_mod(j as nat, m as nat);
            }
        }
        lemma_bytes_bit_ext(back, b);
    }
}

} // verus!
