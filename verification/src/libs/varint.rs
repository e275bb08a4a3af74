use vstd::prelude::*;

use crate::libs::connect::package::BufferIndex;

verus! {

/// The seven payload bits of a varint byte.
pub open spec fn payload(b: u8) -> nat {
    (b % 128) as nat
}

/// Whether a varint byte says that another byte of the same number follows.
pub open spec fn continues(b: u8) -> bool {
    b >= 128
}

/// 128 to the power `n`: the weight of the `n`-th byte of a varint.
pub open spec fn place(n: nat) -> nat
    decreases n,
{
    if n == 0 {
        1
    } else {
        128 * place((n - 1) as nat)
    }
}

/// The number that the payload bits of `s` spell, least significant group first.
pub open spec fn group_value(s: Seq<u8>) -> nat
    decreases s.len(),
{
    if s.len() == 0 {
        0
    } else {
        payload(s[0]) + 128 * group_value(s.drop_first())
    }
}

/// The varint encoding of `v`: seven bits per byte, least significant group first,
/// the continuation bit set on every byte but the last.
pub open spec fn varint_bytes(v: nat) -> Seq<u8>
    decreases v,
{
    if v < 128 {
        seq![v as u8]
    } else {
        seq![(v % 128 + 128) as u8] + varint_bytes(v / 128)
    }
}

/// Where the varint at the front of `s` ends, searching from byte `i`: one past the first
/// byte among the first ten that has no continuation bit, if there is one.
pub open spec fn varint_end(s: Seq<u8>, i: nat) -> Option<nat>
    decreases 10 - i,
{
    if i >= 10 || i >= s.len() {
        None
    } else if !continues(s[i as int]) {
        Some(i + 1)
    } else {
        varint_end(s, i + 1)
    }
}

/// The number at the front of `s` and how many bytes it takes; the value keeps the low
/// 64 bits of what the payload groups spell.
pub open spec fn decode_varint(s: Seq<u8>) -> Option<(u64, nat)> {
    match varint_end(s, 0) {
        Some(n) => Some(((group_value(s.take(n as int)) % 0x1_0000_0000_0000_0000nat) as u64, n)),
        None => None,
    }
}

/// The bytes of `data` from position `start` on (none when `start` is past the end).
pub open spec fn bytes_from(data: Seq<u8>, start: int) -> Seq<u8> {
    if 0 <= start <= data.len() {
        data.subrange(start, data.len() as int)
    } else {
        Seq::empty()
    }
}

proof fn lemma_byte_bits(b: u8)
    by (bit_vector)
    ensures
        (b & 0x7f) == b % 128,
        ((b & 0x80) == 0) == (b < 128),
        b < 128 ==> (b | 0x80) == b + 128,
{
}

proof fn lemma_usize_bits(v: usize)
    by (bit_vector)
    ensures
        (v & 0x7f) == v % 128,
        (v >> 7) == v / 128,
        (v & 0x7f) < 128,
{
}

proof fn lemma_or_step(r: u64, x: u64, s: u32)
    by (bit_vector)
    requires
        s <= 56,
        x < 128,
        r < (1u64 << s),
    ensures
        (r | (x << s)) == r + x * (1u64 << s),
        (1u64 << ((s + 7) as u32)) == 128 * (1u64 << s),
{
}

proof fn lemma_or_last(r: u64, x: u64)
    by (bit_vector)
    requires
        r < 0x8000_0000_0000_0000u64,
        x < 128,
    ensures
        (r | (x << 63u32)) == r + (x % 2) * 0x8000_0000_0000_0000u64,
{
}

proof fn lemma_place_values()
    ensures
        place(0) == 1,
        place(9) == 0x8000_0000_0000_0000nat,
        place(10) == 0x40_0000_0000_0000_0000nat,
{
    reveal_with_fuel(place, 11);
}

proof fn lemma_place_monotone(i: nat, j: nat)
    requires
        i <= j,
    ensures
        place(i) <= place(j),
    decreases j,
{
    if i < j {
        lemma_place_monotone(i, (j - 1) as nat);
    }
}

/// Appending a byte adds its payload at the weight of its position.
proof fn lemma_group_value_push(s: Seq<u8>, b: u8)
    ensures
        group_value(s.push(b)) == group_value(s) + payload(b) * place(s.len()),
    decreases s.len(),
{
    if s.len() == 0 {
        assert(s.push(b).drop_first() =~= Seq::<u8>::empty());
        assert(group_value(Seq::<u8>::empty()) == 0);
        assert(s.push(b)[0] == b);
        assert(place(0) == 1);
        assert(group_value(s) == 0);
    } else {
        assert(s.push(b).drop_first() =~= s.drop_first().push(b));
        assert(s.push(b)[0] == s[0]);
        assert(place(s.len()) == 128 * place((s.len() - 1) as nat));
        lemma_group_value_push(s.drop_first(), b);
        let g = group_value(s.drop_first());
        let p = payload(b);
        let w = place((s.len() - 1) as nat);
        assert(128 * (g + p * w) == 128 * g + p * (128 * w)) by (nonlinear_arith);
        assert(group_value(s.push(b)) == payload(s[0]) + 128 * (g + p * w));
        assert(group_value(s) == payload(s[0]) + 128 * g);
    }
}

/// A group value stays below the weight of the next position.
proof fn lemma_group_value_bound(s: Seq<u8>)
    ensures
        group_value(s) < place(s.len()),
    decreases s.len(),
{
    if s.len() > 0 {
        lemma_group_value_bound(s.drop_first());
        let g = group_value(s.drop_first());
        let w = place((s.len() - 1) as nat);
        assert(payload(s[0]) + 128 * g < 128 * w) by (nonlinear_arith)
            requires
                payload(s[0]) < 128,
                g < w,
        ;
    }
}

/// Bytes with the continuation bit do not end a varint.
pub(crate) proof fn lemma_varint_end_skip(s: Seq<u8>, i: nat, j: nat)
    requires
        i <= j <= 10,
        j <= s.len(),
        forall|k: int| i <= k < j ==> continues(#[trigger] s[k]),
    ensures
        varint_end(s, i) == varint_end(s, j),
    decreases j - i,
{
    if i < j {
        lemma_varint_end_skip(s, i + 1, j);
    }
}

/// One step of reading a varint: or-ing the payload of the next byte in at the current
/// shift adds it at the weight of its position (keeping the low 64 bits).
pub(crate) proof fn lemma_accumulate(r: u64, shift: u32, s: Seq<u8>, byte: u8)
    requires
        s.len() <= 9,
        r == group_value(s),
        shift == 7 * s.len(),
        (1u64 << shift) == place(s.len()),
    ensures
        (r | (((byte & 0x7F) as u64) << shift)) as nat == group_value(s.push(byte))
            % 0x1_0000_0000_0000_0000nat,
        s.len() <= 8 ==> (r | (((byte & 0x7F) as u64) << shift)) as nat == group_value(
            s.push(byte),
        ),
        s.len() <= 8 ==> (1u64 << ((shift + 7) as u32)) == place(s.len() + 1),
        ((byte & 0x80) == 0) == !continues(byte),
{
    lemma_place_values();
    lemma_byte_bits(byte);
    lemma_group_value_push(s, byte);
    lemma_group_value_bound(s);
    lemma_place_monotone(s.len(), 9);
    let x = (byte & 0x7F) as u64;
    if s.len() <= 8 {
        lemma_or_step(r, x, shift);
        lemma_group_value_bound(s.push(byte));
        lemma_place_monotone(s.len() + 1, 9);
    } else {
        lemma_or_last(r, x);
        assert((r + x * 0x8000_0000_0000_0000int) % 0x1_0000_0000_0000_0000int == r + (x % 2)
            * 0x8000_0000_0000_0000int) by (nonlinear_arith)
            requires
                r < 0x8000_0000_0000_0000int,
                x < 128,
        ;
    }
}

/// Where a varint ends lies inside the bytes looked at, after the starting byte and
/// within the first ten bytes.
proof fn lemma_varint_end_bounds(s: Seq<u8>, i: nat)
    ensures
        varint_end(s, i) matches Some(n) ==> i < n <= s.len() && n <= 10,
    decreases 10 - i,
{
    if i < 10 && i < s.len() && continues(s[i as int]) {
        lemma_varint_end_bounds(s, i + 1);
    }
}

/// A decoded varint takes between one and ten of the bytes it was decoded from.
pub proof fn lemma_decode_len(s: Seq<u8>)
    ensures
        decode_varint(s) matches Some((v, n)) ==> 1 <= n <= s.len() && n <= 10,
{
    lemma_varint_end_bounds(s, 0);
}

/// A varint decoded from `s` decodes the same whatever follows `s`.
pub proof fn lemma_decode_prefix(s: Seq<u8>, rest: Seq<u8>)
    ensures
        decode_varint(s) matches Some((v, n)) ==> decode_varint(s + rest) == Some((v, n)),
{
    lemma_decode_len(s);
    if let Some((v, n)) = decode_varint(s) {
        lemma_varint_end_prefix(s, rest, 0);
        assert((s + rest).take(n as int) =~= s.take(n as int));
    }
}

proof fn lemma_varint_end_prefix(s: Seq<u8>, rest: Seq<u8>, i: nat)
    ensures
        varint_end(s, i) is Some ==> varint_end(s + rest, i) == varint_end(s, i),
    decreases 10 - i,
{
    if i < 10 && i < s.len() {
        assert((s + rest)[i as int] == s[i as int]);
        lemma_varint_end_prefix(s, rest, i + 1);
    }
}

/// Reads a varint from `data` at `index`.
///
/// On success the index moves past the varint; otherwise it ends one byte past where it
/// started.
pub fn parse_varint(data: &[u8], index: &mut BufferIndex) -> (result: Option<u64>)
    requires
        old(index).0 < usize::MAX,
    ensures
        match decode_varint(bytes_from(data@, old(index).0 as int)) {
            Some((v, n)) => result == Some(v) && final(index).0 == old(index).0 + n,
            None => result is None && final(index).0 == old(index).0 + 1,
        },
{
    let mut result: u64 = 0;
    let mut shift: u32 = 0;
    let mut byte_index = index.get();
    let ghost start = byte_index as int;
    let ghost s = bytes_from(data@, start);
    proof {
        lemma_place_values();
        assert(s.take(0) =~= Seq::<u8>::empty());
        assert((1u64 << 0u32) == 1) by (bit_vector);
    }
    loop
        invariant
            start == old(index).0,
            index.0 == start + 1,
            s == bytes_from(data@, start),
            start <= byte_index,
            byte_index - start <= 9,
            byte_index - start > 0 ==> byte_index <= data.len(),
            start <= data.len() ==> s.len() == data.len() - start,
            forall|k: int| 0 <= k < s.len() ==> s[k] == data@[start + k],
            shift == 7 * (byte_index - start),
            forall|k: int| 0 <= k < byte_index - start ==> continues(#[trigger] s[k]),
            result == group_value(s.take(byte_index - start)),
            (1u64 << shift) == place((byte_index - start) as nat),
            place(9) == 0x8000_0000_0000_0000nat,
            place(10) == 0x40_0000_0000_0000_0000nat,
        decreases 10 - (byte_index - start),
    {
        let ghost count: int = byte_index - start;
        if byte_index >= data.len() {
            proof {
                lemma_varint_end_skip(s, 0, count as nat);
            }
            return None;
        }
        let byte = data[byte_index];
        proof {
            assert(s[count] == byte);
            assert(s.take(count + 1) =~= s.take(count).push(byte));
            lemma_accumulate(result, shift, s.take(count), byte);
        }
        result |= ((byte & 0x7F) as u64) << shift;
        shift += 7;
        byte_index += 1;
        if byte & 0x80 == 0 {
            proof {
                lemma_varint_end_skip(s, 0, count as nat);
            }
            index.set(byte_index);
            return Some(result);
        }
        if shift >= 64 {
            proof {
                lemma_varint_end_skip(s, 0, 10);
            }
            return None;
        }
    }
}

/// The varint encoding of `value`.
pub fn encode_varint(value: usize) -> (result: Vec<u8>)
    ensures
        result@ == varint_bytes(value as nat),
        1 <= result@.len() <= 10,
{
    let ghost original = value as nat;
    let mut value = value;
    let mut result: Vec<u8> = Vec::new();
    loop
        invariant_except_break
            result@ + varint_bytes(value as nat) == varint_bytes(original),
        ensures
            result@ == varint_bytes(original),
        decreases value,
    {
        proof {
            lemma_usize_bits(value);
        }
        let ghost before = value as nat;
        let mut byte = (value & 0x7F) as u8;
        value >>= 7;
        proof {
            lemma_byte_bits(byte);
        }
        if value != 0 {
            byte |= 0x80;
        }
        let ghost old_result = result@;
        result.push(byte);
        if value == 0 {
            assert(varint_bytes(before) =~= seq![byte]);
            assert(result@ =~= old_result + varint_bytes(before));
            break ;
        }
        assert(varint_bytes(before) =~= seq![byte] + varint_bytes(value as nat));
        assert(result@ + varint_bytes(value as nat) =~= old_result + varint_bytes(before));
    }
    proof {
        lemma_place_values();
        lemma_varint_bytes_len(original, 10);
    }
    result
}

/// A number below `place(n)` takes at most `n` bytes.
proof fn lemma_varint_bytes_len(v: nat, n: nat)
    requires
        1 <= n,
        v < place(n),
    ensures
        1 <= varint_bytes(v).len() <= n,
    decreases v,
{
    if v >= 128 {
        reveal_with_fuel(place, 2);
        assert(n >= 2);
        let w = place((n - 1) as nat);
        assert(v / 128 < w) by (nonlinear_arith)
            requires
                v < 128 * w,
        ;
        lemma_varint_bytes_len(v / 128, (n - 1) as nat);
    }
}

/// The payload groups of an encoding spell the encoded number.
proof fn lemma_group_value_of_bytes(v: nat)
    ensures
        group_value(varint_bytes(v)) == v,
    decreases v,
{
    if v < 128 {
        assert(varint_bytes(v).drop_first() =~= Seq::<u8>::empty());
        assert(group_value(Seq::<u8>::empty()) == 0);
    } else {
        let t = varint_bytes(v / 128);
        let b = (v % 128 + 128) as u8;
        assert((seq![b] + t).drop_first() =~= t);
        assert((seq![b] + t)[0] == b);
        lemma_group_value_of_bytes(v / 128);
        assert(payload(b) == v % 128);
        assert(v % 128 + 128 * (v / 128) == v) by (nonlinear_arith);
    }
}

/// Every byte of an encoding but the last carries the continuation bit.
proof fn lemma_varint_bytes_shape(v: nat)
    ensures
        varint_bytes(v).len() >= 1,
        forall|k: int| 0 <= k < varint_bytes(v).len() - 1 ==> continues(#[trigger] varint_bytes(v)[k]),
        !continues(varint_bytes(v)[varint_bytes(v).len() - 1]),
    decreases v,
{
    if v >= 128 {
        let t = varint_bytes(v / 128);
        let b = (v % 128 + 128) as u8;
        lemma_varint_bytes_shape(v / 128);
        let e = seq![b] + t;
        assert forall|k: int| 0 <= k < e.len() - 1 implies continues(#[trigger] e[k]) by {
            if k > 0 {
                assert(e[k] == t[k - 1]);
            }
        }
        assert(e[e.len() - 1] == t[t.len() - 1]);
    }
}

/// A varint of at most ten bytes ends where its encoding ends, whatever follows it.
proof fn lemma_varint_end_of_encoding(v: nat, after: Seq<u8>)
    requires
        varint_bytes(v).len() <= 10,
    ensures
        varint_end(varint_bytes(v) + after, 0) == Some(varint_bytes(v).len()),
{
    let e = varint_bytes(v);
    let s = e + after;
    lemma_varint_bytes_shape(v);
    assert forall|k: int| 0 <= k < e.len() - 1 implies continues(#[trigger] s[k]) by {
        assert(s[k] == e[k]);
    }
    lemma_varint_end_skip(s, 0, (e.len() - 1) as nat);
    assert(s[e.len() - 1] == e[e.len() - 1]);
}

/// What `encode_varint` writes, `parse_varint` reads back: placed anywhere in a buffer,
/// the encoding of `v` decodes to `v` and takes exactly its own bytes.
pub proof fn varint_roundtrip(before: Seq<u8>, v: u64, after: Seq<u8>)
    ensures
        decode_varint(bytes_from(before + varint_bytes(v as nat) + after, before.len() as int))
            == Some((v, varint_bytes(v as nat).len())),
{
    let e = varint_bytes(v as nat);
    let data = before + e + after;
    assert(bytes_from(data, before.len() as int) =~= e + after);
    lemma_place_values();
    lemma_varint_bytes_len(v as nat, 10);
    lemma_varint_end_of_encoding(v as nat, after);
    assert((e + after).take(e.len() as int) =~= e);
    lemma_group_value_of_bytes(v as nat);
}

} // verus!
