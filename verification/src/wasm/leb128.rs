//! LEB128 (Little Endian Base 128) variable-length integer encoders.
use vstd::prelude::*;
use vstd::string::StringSliceAdditionalSpecFns;

verus! {

/// The unsigned LEB128 encoding of `v`: seven bits per byte, least
/// significant group first, the high bit set on every byte but the last.
pub open spec fn uleb128(v: nat) -> Seq<u8>
    decreases v,
{
    if v < 128 {
        seq![v as u8]
    } else {
        seq![(v % 128 + 128) as u8] + uleb128(v / 128)
    }
}

/// The signed LEB128 encoding of `v`: groups of seven bits of the two's
/// complement value, ending at the first group whose remaining value is the
/// sign extension of its bit 6.
pub open spec fn sleb128(v: int) -> Seq<u8>
    decreases (if v >= 0 { v } else { -v }),
{
    let low = v % 128;
    let rest = v / 128;
    if (rest == 0 && low < 64) || (rest == -1 && low >= 64) {
        seq![low as u8]
    } else {
        proof {
            if v >= 0 {
                assert(rest < v) by (nonlinear_arith) requires v >= 0, rest == v / 128, !(rest == 0 && v % 128 < 64), 0 <= v % 128 < 128, v == 128 * rest + v % 128;
            }
        }
        seq![(low + 128) as u8] + sleb128(rest)
    }
}

/// Encodes an unsigned 32-bit integer into LEB128 format.
pub fn encode_u32(val: u32, buf: &mut Vec<u8>)
    ensures
        final(buf)@ == old(buf)@ + uleb128(val as nat),
{
    let mut v = val;
    loop
        invariant_except_break
            buf@ + uleb128(v as nat) == old(buf)@ + uleb128(val as nat),
        ensures
            buf@ == old(buf)@ + uleb128(val as nat),
        decreases v,
    {
        assert(v & 0x7F < 128) by (bit_vector);
        let byte = (v & 0x7F) as u8;
        assert((v & 0x7F) as nat == v as nat % 128) by (bit_vector);
        assert(v >> 7 == v / 128) by (bit_vector);
        let ghost prev = v;
        v = v >> 7;
        if v != 0 {
            assert((byte | 0x80) == byte + 128) by (bit_vector) requires byte < 128;
            buf.push(byte | 0x80);
            assert(uleb128(prev as nat) == seq![(byte + 128) as u8] + uleb128(v as nat));
        } else {
            buf.push(byte);
            assert(uleb128(prev as nat) == seq![byte]);
            break;
        }
    }
}

/// The magnitude that strictly shrinks at each step of the signed encoding.
pub open spec fn sleb_measure(v: int) -> nat {
    if v >= 0 { v as nat } else { (-v) as nat }
}

proof fn lemma_sleb_step(v: int)
    requires
        !((v / 128 == 0 && v % 128 < 64) || (v / 128 == -1 && v % 128 >= 64)),
    ensures
        sleb_measure(v / 128) < sleb_measure(v),
        sleb128(v) == seq![(v % 128 + 128) as u8] + sleb128(v / 128),
{
    let rest = v / 128;
    let low = v % 128;
    vstd::arithmetic::div_mod::lemma_fundamental_div_mod(v, 128);
    if v >= 0 {
        assert(rest >= 0) by (nonlinear_arith) requires v >= 0, v == 128 * rest + low, 0 <= low < 128;
    } else {
        assert(rest < 0) by (nonlinear_arith) requires v < 0, v == 128 * rest + low, 0 <= low < 128;
    }
}

/// The bound `64 * 128^k`: values in `[-bound, bound)` take at most `k + 1`
/// bytes in signed LEB128.
pub open spec fn sleb_bound(k: nat) -> int
    decreases k,
{
    if k == 0 { 64 } else { 128 * sleb_bound((k - 1) as nat) }
}

proof fn lemma_sleb_shape(v: int, k: nat)
    requires
        -sleb_bound(k) <= v < sleb_bound(k),
    ensures
        1 <= sleb128(v).len() <= k + 1,
        sleb128(v).last() < 128,
        forall|j: int| 0 <= j < sleb128(v).len() - 1 ==> #[trigger] sleb128(v)[j] >= 128,
    decreases k,
{
    let rest = v / 128;
    let low = v % 128;
    if (rest == 0 && low < 64) || (rest == -1 && low >= 64) {
        assert(sleb128(v) == seq![low as u8]);
    } else {
        if k == 0 {
            assert(false);
        }
        lemma_sleb_step(v);
        let b = sleb_bound((k - 1) as nat);
        assert(-b <= rest < b);
        lemma_sleb_shape(rest, (k - 1) as nat);
        let t = sleb128(rest);
        assert(sleb128(v) == seq![(low + 128) as u8] + t);
        assert forall|j: int| 0 <= j < sleb128(v).len() - 1 implies #[trigger] sleb128(v)[j] >= 128 by {
            if j > 0 {
                assert(sleb128(v)[j] == t[j - 1]);
            }
        }
    }
}

/// Every `i64` takes one to ten bytes in signed LEB128, each byte but the
/// last with its high bit set, the last with it clear.
pub proof fn lemma_sleb64_shape(v: i64)
    ensures
        1 <= sleb128(v as int).len() <= 10,
        sleb128(v as int).last() < 128,
        forall|j: int| 0 <= j < sleb128(v as int).len() - 1 ==> #[trigger] sleb128(v as int)[j] >= 128,
{
    reveal_with_fuel(sleb_bound, 10);
    assert(sleb_bound(9) == 0x20_0000_0000_0000_0000);
    lemma_sleb_shape(v as int, 9);
}

/// Encodes a signed 32-bit integer into LEB128 format.
pub fn encode_i32(val: i32, buf: &mut Vec<u8>)
    ensures
        final(buf)@ == old(buf)@ + sleb128(val as int),
{
    let mut v = val;
    loop
        invariant_except_break
            buf@ + sleb128(v as int) == old(buf)@ + sleb128(val as int),
        ensures
            buf@ == old(buf)@ + sleb128(val as int),
        decreases sleb_measure(v as int),
    {
        assert((v & 0x7F) as int == v as int % 128) by (bit_vector);
        assert((v >> 7) as int == v as int / 128) by (bit_vector);
        assert(0 <= v & 0x7F < 128) by (bit_vector);
        let byte = (v & 0x7F) as u8;
        let ghost prev = v;
        v = v >> 7;
        assert((byte & 0x40 != 0) == (byte >= 64)) by (bit_vector) requires byte < 128;
        let sign_bit = (byte & 0x40) != 0;
        if (v == 0 && !sign_bit) || (v == -1 && sign_bit) {
            buf.push(byte);
            assert(sleb128(prev as int) == seq![byte]);
            break;
        } else {
            assert((byte | 0x80) == byte + 128) by (bit_vector) requires byte < 128;
            proof { lemma_sleb_step(prev as int); }
            buf.push(byte | 0x80);
        }
    }
}

/// Encodes a signed 64-bit integer into LEB128 format.
pub fn encode_i64(val: i64, buf: &mut Vec<u8>)
    ensures
        final(buf)@ == old(buf)@ + sleb128(val as int),
{
    let mut v = val;
    loop
        invariant_except_break
            buf@ + sleb128(v as int) == old(buf)@ + sleb128(val as int),
        ensures
            buf@ == old(buf)@ + sleb128(val as int),
        decreases sleb_measure(v as int),
    {
        assert((v & 0x7F) as int == v as int % 128) by (bit_vector);
        assert((v >> 7) as int == v as int / 128) by (bit_vector);
        assert(0 <= v & 0x7F < 128) by (bit_vector);
        let byte = (v & 0x7F) as u8;
        let ghost prev = v;
        v = v >> 7;
        assert((byte & 0x40 != 0) == (byte >= 64)) by (bit_vector) requires byte < 128;
        let sign_bit = (byte & 0x40) != 0;
        if (v == 0 && !sign_bit) || (v == -1 && sign_bit) {
            buf.push(byte);
            assert(sleb128(prev as int) == seq![byte]);
            break;
        } else {
            assert((byte | 0x80) == byte + 128) by (bit_vector) requires byte < 128;
            proof { lemma_sleb_step(prev as int); }
            buf.push(byte | 0x80);
        }
    }
}

/// Encodes a UTF-8 string prefixed with its LEB128 byte length.
/// A length beyond `u32::MAX` is written truncated to 32 bits, as `as u32` does.
pub fn encode_name(name: &str, buf: &mut Vec<u8>)
    ensures
        final(buf)@ == old(buf)@ + uleb128(#[verifier::truncate] (name.len() as u32) as nat) + name.spec_bytes(),
{
    encode_u32(#[verifier::truncate] (name.len() as u32), buf);
    let ghost mid = buf@;
    buf.extend_from_slice(name.as_bytes());
    assert(buf@ =~= mid + name.spec_bytes());
}

/// `128` raised to the power `k`.
pub open spec fn pow128(k: nat) -> nat
    decreases k,
{
    if k == 0 { 1 } else { 128 * pow128((k - 1) as nat) }
}

/// The signed 32-bit integer whose two's complement bit pattern is `p` (taken modulo 2^32).
pub open spec fn i32_from_bits(p: int) -> i32 {
    let q = p % 0x1_0000_0000;
    if q < 0x8000_0000 { q as i32 } else { (q - 0x1_0000_0000) as i32 }
}

/// Reading an unsigned 32-bit LEB128 number from the front of `s`, once `k`
/// continuation bytes whose payloads sum to `acc` have been read: the value,
/// if one is read, and the number of bytes consumed. At most five bytes are
/// read; a fifth byte with its continuation bit set gives no value, and so
/// does running out of bytes. Payload bits beyond 32 are dropped.
pub open spec fn read_uleb32_from(s: Seq<u8>, k: nat, acc: nat) -> (Option<u32>, nat)
    decreases 5 - k,
{
    if k >= 5 || k >= s.len() {
        (None, k)
    } else {
        let acc2 = acc + (s[k as int] % 128) as nat * pow128(k);
        if s[k as int] < 128 {
            (Some((acc2 % 0x1_0000_0000) as u32), k + 1)
        } else if k + 1 >= 5 {
            (None, k + 1)
        } else {
            read_uleb32_from(s, k + 1, acc2)
        }
    }
}

/// Reading an unsigned 32-bit LEB128 number from the front of `s`.
pub open spec fn read_uleb32(s: Seq<u8>) -> (Option<u32>, nat) {
    read_uleb32_from(s, 0, 0)
}

/// Reading a signed 32-bit LEB128 number from the front of `s`, once `k`
/// continuation bytes whose payloads sum to `acc` have been read. As for the
/// unsigned form, at most five bytes are read; when the last byte read is one
/// of the first four and its bit 6 is set, the value is sign-extended.
pub open spec fn read_sleb32_from(s: Seq<u8>, k: nat, acc: nat) -> (Option<i32>, nat)
    decreases 5 - k,
{
    if k >= 5 || k >= s.len() {
        (None, k)
    } else {
        let acc2 = acc + (s[k as int] % 128) as nat * pow128(k);
        if s[k as int] < 128 {
            let pattern: int = if k + 1 < 5 && s[k as int] % 128 >= 64 {
                acc2 + 0x1_0000_0000 - pow128(k + 1)
            } else {
                acc2 as int
            };
            (Some(i32_from_bits(pattern)), k + 1)
        } else if k + 1 >= 5 {
            (None, k + 1)
        } else {
            read_sleb32_from(s, k + 1, acc2)
        }
    }
}

/// Reading a signed 32-bit LEB128 number from the front of `s`.
pub open spec fn read_sleb32(s: Seq<u8>) -> (Option<i32>, nat) {
    read_sleb32_from(s, 0, 0)
}

/// One step of accumulating a LEB128 payload: OR-ing the low seven bits of
/// `b`, shifted by `7 * k`, into `r` adds them (modulo 2^32).
pub proof fn lemma_accumulate(r: u32, b: u8, k: nat, shift: u32)
    requires
        k <= 4,
        shift == 7 * k,
        r < pow128(k),
    ensures
        (r | (((b & 0x7f) as u32) << shift)) as nat == (r + (b % 128) as nat * pow128(k)) % 0x1_0000_0000,
        k < 4 ==> (r | (((b & 0x7f) as u32) << shift)) as nat == r + (b % 128) as nat * pow128(k),
        k < 4 ==> r + (b % 128) as nat * pow128(k) < pow128(k + 1),
        (b & 0x7f) == b % 128,
{
    assert((b & 0x7f) == b % 128) by (bit_vector);
    reveal_with_fuel(pow128, 6);
    if k == 0 {
        assert((r | (((b & 0x7f) as u32) << 0u32)) == r + ((b & 0x7f) as u32)
            && (r + ((b & 0x7f) as u32)) < 128) by (bit_vector) requires r < 1;
    } else if k == 1 {
        assert((r | (((b & 0x7f) as u32) << 7u32)) == r + ((b & 0x7f) as u32) * 128
            && (r + ((b & 0x7f) as u32) * 128) < 16384) by (bit_vector) requires r < 128;
    } else if k == 2 {
        assert((r | (((b & 0x7f) as u32) << 14u32)) == r + ((b & 0x7f) as u32) * 16384
            && (r + ((b & 0x7f) as u32) * 16384) < 2097152) by (bit_vector) requires r < 16384;
    } else if k == 3 {
        assert((r | (((b & 0x7f) as u32) << 21u32)) == r + ((b & 0x7f) as u32) * 2097152
            && (r + ((b & 0x7f) as u32) * 2097152) < 268435456) by (bit_vector) requires r < 2097152;
    } else {
        assert((r | (((b & 0x7f) as u32) << 28u32)) as int
            == (r as int + (b & 0x7f) as int * 268435456) % 0x1_0000_0000) by (bit_vector)
            requires r < 268435456;
    }
}

/// Setting every bit from `shift` upwards in a pattern below `2^shift`
/// adds `2^32 - 2^shift`.
pub proof fn lemma_sign_fill(r: u32, k: nat, shift: u32)
    requires
        1 <= k <= 4,
        shift == 7 * k,
        r < pow128(k),
    ensures
        (r | (!0u32 << shift)) as int == r + 0x1_0000_0000 - pow128(k),
{
    reveal_with_fuel(pow128, 6);
    if k == 1 {
        assert((r | (!0u32 << 7u32)) as int == r + 0x1_0000_0000 - 128) by (bit_vector) requires r < 128;
    } else if k == 2 {
        assert((r | (!0u32 << 14u32)) as int == r + 0x1_0000_0000 - 16384) by (bit_vector) requires r < 16384;
    } else if k == 3 {
        assert((r | (!0u32 << 21u32)) as int == r + 0x1_0000_0000 - 2097152) by (bit_vector) requires r < 2097152;
    } else {
        assert((r | (!0u32 << 28u32)) as int == r + 0x1_0000_0000 - 268435456) by (bit_vector) requires r < 268435456;
    }
}

/// Reading a u32 pattern as i32 is the two's complement interpretation.
pub proof fn lemma_u32_as_i32(r: u32)
    ensures
        (r as i32) == i32_from_bits(r as int),
{
    assert(((r as i32) as int) == (if r < 0x8000_0000 { r as int } else { r as int - 0x1_0000_0000 })) by (bit_vector);
}

proof fn lemma_pow128_values()
    ensures
        pow128(0) == 1,
        pow128(1) == 128,
        pow128(2) == 16384,
        pow128(3) == 2097152,
        pow128(4) == 268435456,
        pow128(5) == 34359738368,
{
    reveal_with_fuel(pow128, 6);
}

#[verifier::spinoff_prover]
proof fn lemma_uleb32_read_from(p: Seq<u8>, w: nat, rest: Seq<u8>, k: nat, acc: nat)
    requires
        p.len() == k,
        k <= 4,
        acc < pow128(k),
        acc + w * pow128(k) < 0x1_0000_0000,
    ensures
        read_uleb32_from(p + uleb128(w) + rest, k, acc)
            == (Some((acc + w * pow128(k)) as u32), k + uleb128(w).len()),
    decreases w,
{
    lemma_pow128_values();
    let s = p + uleb128(w) + rest;
    let v = acc + w * pow128(k);
    if w < 128 {
        assert(s[k as int] == w as u8);
        vstd::arithmetic::div_mod::lemma_small_mod(v, 0x1_0000_0000);
    } else {
        let byte = (w % 128 + 128) as u8;
        assert(s[k as int] == byte);
        assert(byte % 128 == w % 128);
        let acc2 = acc + (w % 128) * pow128(k);
        vstd::arithmetic::div_mod::lemma_fundamental_div_mod(w as int, 128);
        assert(pow128(k + 1) == 128 * pow128(k));
        assert(w * pow128(k) >= 128 * pow128(k)) by (nonlinear_arith) requires w >= 128;
        assert(k + 1 < 5) by {
            if k == 4 {
                assert(w * pow128(k) >= 34359738368);
            }
        }
        assert(acc2 < pow128(k + 1)) by (nonlinear_arith)
            requires acc2 == acc + (w % 128) * pow128(k), acc < pow128(k), w % 128 < 128,
                pow128(k + 1) == 128 * pow128(k), w % 128 >= 0;
        assert(acc2 + (w / 128) * pow128(k + 1) == v) by (nonlinear_arith)
            requires acc2 == acc + (w % 128) * pow128(k), v == acc + w * pow128(k),
                pow128(k + 1) == 128 * pow128(k), w == 128 * (w / 128) + w % 128;
        let p2 = p.push(byte);
        assert(p2 + uleb128(w / 128) + rest =~= s);
        lemma_uleb32_read_from(p2, w / 128, rest, k + 1, acc2);
    }
}

/// Decoding what `encode_u32` wrote gives back the value and consumes
/// exactly the encoding, whatever follows it.
pub proof fn lemma_uleb32_roundtrip(v: u32, rest: Seq<u8>)
    ensures
        read_uleb32(uleb128(v as nat) + rest) == (Some(v), uleb128(v as nat).len()),
{
    lemma_pow128_values();
    lemma_uleb32_read_from(Seq::empty(), v as nat, rest, 0, 0);
    assert(Seq::<u8>::empty() + uleb128(v as nat) + rest =~= uleb128(v as nat) + rest);
}

#[verifier::spinoff_prover]
#[verifier::rlimit(40)]
proof fn lemma_sleb32_read_from(p: Seq<u8>, w: int, rest: Seq<u8>, k: nat, acc: nat)
    requires
        p.len() == k,
        k <= 4,
        acc < pow128(k),
        -0x8000_0000 <= acc + w * pow128(k) < 0x8000_0000,
    ensures
        read_sleb32_from(p + sleb128(w) + rest, k, acc)
            == (Some((acc + w * pow128(k)) as i32), k + sleb128(w).len()),
    decreases sleb_measure(w),
{
    lemma_pow128_values();
    let s = p + sleb128(w) + rest;
    let v = acc + w * pow128(k);
    let low = w % 128;
    let wq = w / 128;
    vstd::arithmetic::div_mod::lemma_fundamental_div_mod(w, 128);
    assert(0 <= low < 128);
    let acc2 = acc + low * pow128(k);
    assert(pow128(k + 1) == 128 * pow128(k));
    assert(acc2 < pow128(k + 1)) by (nonlinear_arith)
        requires acc2 == acc + low * pow128(k), acc < pow128(k), low < 128,
            pow128(k + 1) == 128 * pow128(k), low >= 0;
    assert(acc2 + wq * pow128(k + 1) == v) by (nonlinear_arith)
        requires acc2 == acc + low * pow128(k), v == acc + w * pow128(k),
            pow128(k + 1) == 128 * pow128(k), w == 128 * wq + low;
    if (wq == 0 && low < 64) || (wq == -1 && low >= 64) {
        assert(s[k as int] == low as u8);
        if wq == 0 {
            assert(v == acc2);
            vstd::arithmetic::div_mod::lemma_small_mod(v as nat, 0x1_0000_0000);
        } else {
            assert(wq * pow128(k + 1) == -pow128(k + 1)) by (nonlinear_arith) requires wq == -1;
            assert(v == acc2 - pow128(k + 1));
            if k + 1 < 5 {
                assert((acc2 + 0x1_0000_0000 - pow128(k + 1)) % 0x1_0000_0000 == v + 0x1_0000_0000) by {
                    vstd::arithmetic::div_mod::lemma_small_mod((v + 0x1_0000_0000) as nat, 0x1_0000_0000);
                }
            } else {
                assert(acc2 == v + 34359738368);
                assert((v + 34359738368) % 0x1_0000_0000 == v + 0x1_0000_0000) by {
                    vstd::arithmetic::div_mod::lemma_mod_add_multiples_vanish(v + 0x1_0000_0000, 0x1_0000_0000);
                    vstd::arithmetic::div_mod::lemma_mod_add_multiples_vanish(v + 0x2_0000_0000, 0x1_0000_0000);
                    vstd::arithmetic::div_mod::lemma_mod_add_multiples_vanish(v + 0x3_0000_0000, 0x1_0000_0000);
                    vstd::arithmetic::div_mod::lemma_mod_add_multiples_vanish(v + 0x4_0000_0000, 0x1_0000_0000);
                    vstd::arithmetic::div_mod::lemma_mod_add_multiples_vanish(v + 0x5_0000_0000, 0x1_0000_0000);
                    vstd::arithmetic::div_mod::lemma_mod_add_multiples_vanish(v + 0x6_0000_0000, 0x1_0000_0000);
                    vstd::arithmetic::div_mod::lemma_mod_add_multiples_vanish(v + 0x7_0000_0000, 0x1_0000_0000);
                    vstd::arithmetic::div_mod::lemma_small_mod((v + 0x1_0000_0000) as nat, 0x1_0000_0000);
                }
            }
        }
    } else {
        let byte = (low + 128) as u8;
        assert(s[k as int] == byte);
        assert(k + 1 < 5) by {
            if k == 4 {
                if wq >= 1 {
                    assert(w >= 128);
                    assert(w * pow128(k) >= 128 * 268435456) by (nonlinear_arith) requires w >= 128, pow128(k) == 268435456;
                } else if wq <= -2 {
                    assert(w <= -129);
                    assert(w * pow128(k) <= -129 * 268435456) by (nonlinear_arith) requires w <= -129, pow128(k) == 268435456;
                } else if wq == 0 {
                    assert(64 <= w < 128);
                    assert(w * pow128(k) >= 64 * 268435456) by (nonlinear_arith) requires w >= 64, pow128(k) == 268435456;
                } else {
                    assert(-128 <= w < -64);
                    assert(w * pow128(k) < -64 * 268435456) by (nonlinear_arith) requires w < -64, pow128(k) == 268435456;
                }
            }
        }
        lemma_sleb_step(w);
        let p2 = p.push(byte);
        assert(p2 + sleb128(wq) + rest =~= s);
        lemma_sleb32_read_from(p2, wq, rest, k + 1, acc2 as nat);
    }
}

/// Decoding what `encode_i32` wrote gives back the value and consumes
/// exactly the encoding, whatever follows it.
pub proof fn lemma_sleb32_roundtrip(v: i32, rest: Seq<u8>)
    ensures
        read_sleb32(sleb128(v as int) + rest) == (Some(v), sleb128(v as int).len()),
{
    lemma_pow128_values();
    lemma_sleb32_read_from(Seq::empty(), v as int, rest, 0, 0);
    assert(Seq::<u8>::empty() + sleb128(v as int) + rest =~= sleb128(v as int) + rest);
}

} // verus!
