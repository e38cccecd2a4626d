//! The big-endian variable-length integer codec.
use vstd::prelude::*;

use crate::error::DbError;

verus! {

/// `128` raised to the power `k`.
pub open spec fn pow128(k: nat) -> nat
    decreases k,
{
    if k == 0 {
        1
    } else {
        128 * pow128((k - 1) as nat)
    }
}

/// Decodes the rest of a varint whose first `i` bytes, starting at `off`,
/// gave the accumulator `acc`; yields the value and the total byte count.
pub open spec fn varint_from(data: Seq<u8>, off: int, i: nat, acc: int) -> Option<(int, nat)>
    decreases 9 - i,
{
    if i >= 9 || off < 0 || off + i >= data.len() {
        None
    } else {
        let b = data[off + i] as int;
        if i == 8 {
            Some((acc * 256 + b, 9))
        } else if b < 128 {
            Some((acc * 128 + b, (i + 1) as nat))
        } else {
            varint_from(data, off, (i + 1) as nat, acc * 128 + (b - 128))
        }
    }
}

/// The varint stored at `off` in `data`, with the number of bytes it takes.
pub open spec fn varint_at(data: Seq<u8>, off: int) -> Option<(int, nat)> {
    varint_from(data, off, 0, 0)
}

pub proof fn lemma_varint_from_bounds(data: Seq<u8>, off: int, i: nat, acc: int)
    requires
        i <= 8,
        0 <= acc < pow128(i),
    ensures
        varint_from(data, off, i, acc) matches Some((v, n)) ==> {
            &&& i < n <= 9
            &&& off + n <= data.len()
            &&& 0 <= v < 0x1_0000_0000_0000_0000
            &&& n <= 8 ==> v < pow128(n)
        },
    decreases 9 - i,
{
    reveal_with_fuel(pow128, 9);
    if !(i >= 9 || off < 0 || off + i >= data.len()) {
        let b = data[off + i] as int;
        assert(0 <= b < 256);
        if i == 8 {
            assert(acc * 256 + b < 0x1_0000_0000_0000_0000) by (nonlinear_arith)
                requires
                    0 <= acc < 0x100_0000_0000_0000,
                    0 <= b < 256,
            ;
            assert(0 <= acc * 256 + b) by (nonlinear_arith)
                requires
                    0 <= acc,
                    0 <= b,
            ;
        } else {
            let p = pow128(i);
            assert(0 <= acc * 128 + b % 128 < p * 128) by (nonlinear_arith)
                requires
                    0 <= acc < p,
                    0 <= b < 256,
            ;
            assert(pow128((i + 1) as nat) == 128 * p);
            if b >= 128 {
                lemma_varint_from_bounds(data, off, (i + 1) as nat, acc * 128 + (b - 128));
            }
            assert(pow128(8) == 0x100_0000_0000_0000);
            assert(p <= 0x100_0000_0000_0000) by {
                lemma_pow128_mono(i, 8);
            }
        }
    }
}

proof fn lemma_pow128_mono(a: nat, b: nat)
    requires
        a <= b,
    ensures
        pow128(a) <= pow128(b),
    decreases b - a,
{
    if a < b {
        lemma_pow128_mono(a, (b - 1) as nat);
    }
}

/// Reads the varint at `offset`: its value and the number of bytes it takes.
pub fn read_varint(data: &[u8], offset: usize) -> (r: Result<(u64, usize), DbError>)
    ensures
        match varint_at(data@, offset as int) {
            Some((v, n)) => {
                &&& r == Ok::<(u64, usize), DbError>((v as u64, n as usize))
                &&& 1 <= n <= 9
                &&& offset + n <= data@.len()
                &&& 0 <= v < 0x1_0000_0000_0000_0000
            },
            None => r == Err::<(u64, usize), DbError>(DbError::CorruptVarint),
        },
{
    proof {
        lemma_varint_from_bounds(data@, offset as int, 0, 0);
        reveal_with_fuel(pow128, 9);
    }
    let mut value: u64 = 0;
    let mut i: usize = 0;
    loop
        invariant
            i <= 8,
            (value as int) < pow128(i as nat),
            varint_at(data@, offset as int) == varint_from(data@, offset as int, i as nat, value as int),
        decreases 9 - i,
    {
        if offset >= data.len() || data.len() - offset <= i {
            return Err(DbError::CorruptVarint);
        }
        let byte = data[offset + i];
        proof {
            lemma_pow128_mono(i as nat, 8);
            assert(pow128(8) == 0x100_0000_0000_0000) by {
                reveal_with_fuel(pow128, 9);
            }
        }
        if i == 8 {
            assert((value as int) * 256 + (byte as int) < 0x1_0000_0000_0000_0000) by (nonlinear_arith)
                requires
                    0 <= value < 0x100_0000_0000_0000,
                    0 <= byte < 256,
            ;
            return Ok((value * 256 + byte as u64, 9));
        }
        let low: u8 = if byte >= 0x80 {
            byte - 0x80
        } else {
            byte
        };
        assert((value as int) * 128 + (low as int) < pow128(i as nat) * 128) by (nonlinear_arith)
            requires
                0 <= value < pow128(i as nat),
                0 <= low < 128,
        ;
        assert(pow128((i + 1) as nat) == 128 * pow128(i as nat));
        proof {
            lemma_pow128_mono((i + 1) as nat, 8);
        }
        value = value * 128 + low as u64;
        i = i + 1;
        if byte < 0x80 {
            return Ok((value, i));
        }
    }
}

/// The number of 7-bit groups that the canonical varint of `v < 2^56` uses.
pub open spec fn group_count(v: nat) -> nat
    decreases v,
{
    if v < 128 {
        1
    } else {
        1 + group_count(v / 128)
    }
}

/// The `k` low 7-bit groups of `v`, most significant first, each with its
/// continuation bit set.
pub open spec fn continued_groups(v: nat, k: nat) -> Seq<u8>
    decreases k,
{
    if k == 0 {
        Seq::empty()
    } else {
        continued_groups(v / 128, (k - 1) as nat).push((128 + v % 128) as u8)
    }
}

/// The shortest varint that encodes `v < 2^64`.
pub open spec fn varint_encode(v: nat) -> Seq<u8> {
    if v < pow128(8) {
        let k = group_count(v);
        continued_groups(v / 128, (k - 1) as nat).push((v % 128) as u8)
    } else {
        continued_groups(v / 256, 8).push((v % 256) as u8)
    }
}

proof fn lemma_group_count(v: nat, n: nat)
    requires
        1 <= n,
        v < pow128(n),
    ensures
        1 <= group_count(v) <= n,
        v < pow128(group_count(v)),
        group_count(v) > 1 ==> v >= pow128((group_count(v) - 1) as nat),
    decreases v,
{
    if v >= 128 {
        assert(n >= 2) by {
            if n == 1 {
                assert(pow128(1) == 128 * pow128(0));
            }
        }
        let q = v / 128;
        assert(q < pow128((n - 1) as nat)) by (nonlinear_arith)
            requires
                q == v / 128,
                v < pow128(n),
                pow128(n) == 128 * pow128((n - 1) as nat),
        ;
        lemma_group_count(q, (n - 1) as nat);
        let g = group_count(q);
        assert(pow128(g + 1) == 128 * pow128(g));
        assert(v < pow128(g + 1)) by (nonlinear_arith)
            requires
                q == v / 128,
                q < pow128(g),
                pow128(g + 1) == 128 * pow128(g),
        ;
        if g > 1 {
            assert(pow128(g) == 128 * pow128((g - 1) as nat));
            assert(v >= pow128(g)) by (nonlinear_arith)
                requires
                    q == v / 128,
                    q >= pow128((g - 1) as nat),
                    pow128(g) == 128 * pow128((g - 1) as nat),
            ;
        } else {
            assert(pow128(1) == 128 * pow128(0));
        }
    } else {
        assert(pow128(1) == 128 * pow128(0));
    }
}

proof fn lemma_continued_groups_len(v: nat, k: nat)
    ensures
        continued_groups(v, k).len() == k,
    decreases k,
{
    if k > 0 {
        lemma_continued_groups_len(v / 128, (k - 1) as nat);
    }
}

/// Decoding through `k` continued groups of `a < 128^k` multiplies the
/// accumulator by `128^k` and adds `a`.
proof fn lemma_decode_groups(data: Seq<u8>, off: int, i: nat, acc: int, a: nat, k: nat)
    requires
        0 <= off,
        i + k <= 8,
        off + i + k < data.len(),
        a < pow128(k),
        data.subrange(off + i, off + i + k) == continued_groups(a, k),
    ensures
        varint_from(data, off, i, acc) == varint_from(data, off, i + k, acc * pow128(k) + a),
    decreases k,
{
    if k == 0 {
        assert(a == 0);
    } else {
        let q = a / 128;
        let r = a % 128;
        let km = (k - 1) as nat;
        assert(pow128(k) == 128 * pow128(km));
        assert(q < pow128(km)) by (nonlinear_arith)
            requires
                q == a / 128,
                a < pow128(k),
                pow128(k) == 128 * pow128(km),
        ;
        assert(data.subrange(off + i, off + i + km) =~= data.subrange(off + i, off + i + k).drop_last());
        assert(continued_groups(a, k).drop_last() =~= continued_groups(q, km));
        lemma_decode_groups(data, off, i, acc, q, km);
        let j = i + km;
        assert(data[off + j] == data.subrange(off + i, off + i + k)[km as int]);
        assert(data[off + j] == (128 + r) as u8);
        assert(varint_from(data, off, j, acc * pow128(km) + q) == varint_from(
            data,
            off,
            j + 1,
            (acc * pow128(km) + q) * 128 + r,
        ));
        assert((acc * pow128(km) + q) * 128 + r == acc * pow128(k) + a) by (nonlinear_arith)
            requires
                q == a / 128,
                r == a % 128,
                pow128(k) == 128 * pow128(km),
        ;
    }
}

/// A decoded varint is shorter than `n` bytes' worth of groups when it took
/// fewer than nine bytes.
proof fn lemma_decoded_bound(data: Seq<u8>, off: int)
    requires
        varint_at(data, off) is Some,
    ensures
        ({
            let (v, n) = varint_at(data, off)->Some_0;
            &&& 0 <= v < 0x1_0000_0000_0000_0000
            &&& 1 <= n <= 9
            &&& n <= 8 ==> v < pow128(n)
        }),
{
    lemma_varint_from_bounds(data, off, 0, 0);
}

/// Decoding the shortest varint of any 64-bit value gives that value back and
/// takes every byte of the encoding; the encoding is at most nine bytes, and
/// exactly nine for values of `2^56` or more.
pub proof fn lemma_varint_encode_decode(v: nat)
    requires
        v < 0x1_0000_0000_0000_0000,
    ensures
        varint_at(varint_encode(v), 0) == Some((v as int, varint_encode(v).len())),
        1 <= varint_encode(v).len() <= 9,
        v < pow128(8) ==> varint_encode(v).len() == group_count(v),
        v >= pow128(8) ==> varint_encode(v).len() == 9,
{
    let vn = v;
    let e = varint_encode(vn);
    assert(pow128(8) == 0x100_0000_0000_0000) by {
        reveal_with_fuel(pow128, 9);
    }
    if vn < pow128(8) {
        lemma_group_count(vn, 8);
        let k = group_count(vn);
        let km = (k - 1) as nat;
        let q = vn / 128;
        lemma_continued_groups_len(q, km);
        assert(pow128(k) == 128 * pow128(km));
        assert(q < pow128(km)) by (nonlinear_arith)
            requires
                q == vn / 128,
                vn < pow128(k),
                pow128(k) == 128 * pow128(km),
        ;
        assert(e.subrange(0, km as int) =~= continued_groups(q, km));
        lemma_decode_groups(e, 0, 0, 0, q, km);
        assert(pow128(0) == 1);
        assert(e[km as int] == (vn % 128) as u8);
        if km > 0 {
            assert(pow128(km) >= 128) by {
                assert(pow128(km) == 128 * pow128((km - 1) as nat));
                lemma_pow128_pos((km - 1) as nat);
            }
            assert(q >= 1) by (nonlinear_arith)
                requires
                    q == vn / 128,
                    vn >= pow128(km),
                    pow128(km) >= 128,
            {
            }
        }
        assert(0 * pow128(km) + q == q);
        assert(q * 128 + vn % 128 == vn) by (nonlinear_arith)
            requires
                q == vn / 128,
        ;
    } else {
        let q = vn / 256;
        lemma_continued_groups_len(q, 8);
        assert(q < pow128(8)) by (nonlinear_arith)
            requires
                q == vn / 256,
                vn < 0x1_0000_0000_0000_0000,
                pow128(8) == 0x100_0000_0000_0000,
        ;
        assert(e.subrange(0, 8) =~= continued_groups(q, 8));
        lemma_decode_groups(e, 0, 0, 0, q, 8);
        assert(e[8] == (vn % 256) as u8);
        assert(q * 256 + vn % 256 == vn) by (nonlinear_arith)
            requires
                q == vn / 256,
        ;
    }
}

/// Re-encoding a decoded varint gives no more bytes than it took, and decoding
/// that encoding gives the value back.
pub proof fn lemma_varint_reencode(data: Seq<u8>, off: int)
    requires
        varint_at(data, off) is Some,
    ensures
        ({
            let (v, n) = varint_at(data, off)->Some_0;
            let e = varint_encode(v as nat);
            &&& e.len() <= n
            &&& varint_at(e, 0) == Some((v, e.len()))
        }),
{
    lemma_decoded_bound(data, off);
    let (v, n) = varint_at(data, off)->Some_0;
    let vn = v as nat;
    lemma_varint_encode_decode(vn);
    assert(pow128(8) == 0x100_0000_0000_0000) by {
        reveal_with_fuel(pow128, 9);
    }
    if n <= 8 {
        lemma_group_count(vn, n);
        lemma_pow128_mono(n, 8);
    }
}

proof fn lemma_pow128_pos(k: nat)
    ensures
        pow128(k) >= 1,
    decreases k,
{
    if k > 0 {
        lemma_pow128_pos((k - 1) as nat);
    }
}

} // verus!
