//! Variable-length integers as they appear in bytecode and in the constant pool.
//!
//! An unsigned integer is stored seven bits at a time, least significant group
//! first, with the high bit set on every byte but the last. A signed integer is
//! stored as an unsigned one after a zig-zag transformation, so that values of
//! small magnitude of either sign take few bytes.

use vstd::prelude::*;
use vstd::arithmetic::power2::{pow2, lemma_pow2_adds, lemma_pow2_pos, lemma2_to64};
use crate::word::{word_bytes, word_size};
use vstd::bits::{
    lemma_usize_mul_pow2_le_max_iff_max_shr, lemma_usize_pow2_no_overflow, lemma_usize_shl_is_mul,
    lemma_usize_shr_is_div,
};

verus! {

/// A decoded integer together with the index of the first byte after it.
#[derive(Clone, Copy, Debug, PartialEq, Eq, Structural)]
pub struct DecodedInt {
    pub value: isize,
    pub new_index: usize,
}

impl DecodedInt {
    pub fn new(value: isize, new_index: usize) -> (d: DecodedInt)
        ensures
            d.value == value,
            d.new_index == new_index,
    {
        DecodedInt { value, new_index }
    }
}

/// Index of the byte that ends the varint starting at `index`: the first byte
/// at or after `index` whose high bit is clear. It is `bytes.len()` when the
/// input ends before such a byte.
pub open spec fn varint_last(bytes: Seq<u8>, index: int) -> int
    decreases bytes.len() - index,
{
    if index < 0 || index >= bytes.len() {
        bytes.len() as int
    } else if bytes[index] < 0x80 {
        index
    } else {
        varint_last(bytes, index + 1)
    }
}

/// The natural number that the varint starting at `index` denotes, read in
/// base 128 with the least significant digit first.
pub open spec fn varint_value(bytes: Seq<u8>, index: int) -> nat
    decreases bytes.len() - index,
{
    if index < 0 || index >= bytes.len() {
        0
    } else if bytes[index] < 0x80 {
        bytes[index] as nat
    } else {
        (bytes[index] - 0x80) as nat + 128 * varint_value(bytes, index + 1)
    }
}

/// Number of bytes of the varint that starts at `index`.
pub open spec fn varint_length(bytes: Seq<u8>, index: int) -> int {
    varint_last(bytes, index) - index + 1
}

/// A varint at `index` can be decoded: it ends inside the input, it has no
/// more seven-bit groups than a machine word has room to shift, and the
/// number it denotes fits in a machine word.
pub open spec fn varint_well_formed(bytes: Seq<u8>, index: int) -> bool {
    &&& 0 <= index < bytes.len()
    &&& varint_last(bytes, index) < bytes.len()
    &&& 7 * (varint_last(bytes, index) - index) < usize::BITS
    &&& varint_value(bytes, index) <= usize::MAX
}

/// The varint at `index` as an unsigned word, and the index of the first
/// byte after it; `None` where it cannot be decoded.
pub open spec fn spec_decode_varint(bytes: Seq<u8>, index: int) -> Option<(usize, usize)> {
    if varint_well_formed(bytes, index) {
        Some((varint_value(bytes, index) as usize, (varint_last(bytes, index) + 1) as usize))
    } else {
        None
    }
}

/// What `decode_uint` returns: the unsigned word, read as a signed one.
pub open spec fn spec_decode_uint(bytes: Seq<u8>, index: int) -> Option<DecodedInt> {
    match spec_decode_varint(bytes, index) {
        Some((word, new_index)) => Some(DecodedInt { value: word as isize, new_index }),
        None => None,
    }
}

/// The zig-zag transformation from the stored word to the signed value,
/// `(u >> 1) ^ -(u & 1)`: the even words stand for 0, 1, 2 and so on, the
/// odd ones for -1, -2, -3 and so on.
pub open spec fn zigzag_decode(u: usize) -> isize {
    if u % 2 == 0 {
        (u / 2) as isize
    } else {
        (-(u / 2) - 1) as isize
    }
}

/// The zig-zag transformation from the signed value to the stored word.
pub open spec fn zigzag_encode(v: isize) -> usize {
    if v >= 0 {
        (2 * v) as usize
    } else {
        (-2 * v - 1) as usize
    }
}

/// What `decode_sint` returns.
pub open spec fn spec_decode_sint(bytes: Seq<u8>, index: int) -> Option<DecodedInt> {
    match spec_decode_varint(bytes, index) {
        Some((word, new_index)) => Some(DecodedInt { value: zigzag_decode(word), new_index }),
        None => None,
    }
}

/// The bytes that encode `n` as an unsigned varint with no more bytes than
/// it needs.
pub open spec fn spec_encode_uint(n: nat) -> Seq<u8>
    decreases n,
{
    if n < 128 {
        seq![n as u8]
    } else {
        seq![(n % 128 + 128) as u8] + spec_encode_uint(n / 128)
    }
}

/// The bytes that encode `v` as a signed varint.
pub open spec fn spec_encode_sint(v: isize) -> Seq<u8> {
    spec_encode_uint(zigzag_encode(v) as nat)
}

/// The varint at `index` has no more bytes than its value needs: it is one
/// byte long, or its last byte is not 0.
pub open spec fn varint_canonical(bytes: Seq<u8>, index: int) -> bool {
    let last = varint_last(bytes, index);
    last == index || (index < last < bytes.len() && bytes[last] != 0)
}

/// The number that the bytes `lo..hi` denote, least significant byte first.
pub open spec fn le_value(bytes: Seq<u8>, lo: int, hi: int) -> nat
    decreases hi - lo,
{
    if lo >= hi {
        0
    } else {
        bytes[lo] as nat + 256 * le_value(bytes, lo + 1, hi)
    }
}

/// What `decode_unaligned` returns.
pub open spec fn spec_decode_unaligned(bytes: Seq<u8>, index: int) -> Option<DecodedInt> {
    if index + word_size() <= bytes.len() {
        Some(
            DecodedInt {
                value: (le_value(bytes, index, index + word_size()) as usize) as isize,
                new_index: (index + word_size()) as usize,
            },
        )
    } else {
        None
    }
}

/// The byte that ends a varint stands at or after the byte that starts it,
/// unless the input ends first.
pub proof fn lemma_varint_last_bounds(bytes: Seq<u8>, index: int)
    requires
        0 <= index,
    ensures
        index <= varint_last(bytes, index) || varint_last(bytes, index) == bytes.len(),
        varint_last(bytes, index) <= bytes.len(),
    decreases bytes.len() - index,
{
    if index < bytes.len() && bytes[index] >= 0x80 {
        lemma_varint_last_bounds(bytes, index + 1);
    }
}

/// Placing `x` above the `shift` low bits of `acc`, where `acc` has no bits
/// at or above `shift` and `x` loses none when shifted, adds `x * 2^shift`.
proof fn lemma_or_shifted(acc: usize, x: usize, shift: usize)
    requires
        shift < usize::BITS,
        acc < pow2(shift as nat),
        x <= (usize::MAX >> shift),
    ensures
        (acc | (x << shift)) == acc + x * pow2(shift as nat),
        acc + x * pow2(shift as nat) <= usize::MAX,
{
    lemma_usize_pow2_no_overflow(shift as nat);
    lemma_usize_shl_is_mul(1, shift);
    lemma_usize_mul_pow2_le_max_iff_max_shr(x, shift, usize::MAX);
    lemma_usize_shl_is_mul(x, shift);
    let one: usize = 1;
    assert((acc | (x << shift)) == acc + (x << shift)) by (bit_vector)
        requires
            acc < (one << shift),
            one == 1,
    ;
}

/// Reads an unsigned varint at `index` as an unsigned word.
fn decode_varint(bytes: &[u8], index: usize) -> (r: Option<(usize, usize)>)
    ensures
        r == spec_decode_varint(bytes@, index as int),
        r matches Some((_, new_index)) ==> index < new_index <= bytes@.len() && new_index == index
            + varint_length(bytes@, index as int),
{
    if index >= bytes.len() {
        return None;
    }
    let mut i: usize = index;
    let mut value: usize = 0;
    let mut shift: usize = 0;
    proof {
        lemma2_to64();
    }
    while bytes[i] >= 0x80
        invariant
            index <= i < bytes.len(),
            shift == 7 * (i - index),
            shift < usize::BITS,
            value < pow2(shift as nat),
            varint_last(bytes@, index as int) == varint_last(bytes@, i as int),
            varint_value(bytes@, index as int) == value + pow2(shift as nat) * varint_value(
                bytes@,
                i as int,
            ),
        decreases bytes.len() - i,
    {
        let low: usize = (bytes[i] - 0x80) as usize;
        assert(varint_last(bytes@, i as int) == varint_last(bytes@, i + 1));
        if i + 1 >= bytes.len() {
            return None;
        }
        if shift + 7 >= usize::BITS as usize {
            proof {
                lemma_varint_last_bounds(bytes@, i + 1);
            }
            return None;
        }
        proof {
            lemma2_to64();
            let p = pow2(shift as nat);
            let rest = varint_value(bytes@, i + 1);
            lemma_pow2_adds(shift as nat, 7);
            lemma_usize_pow2_no_overflow((shift + 7) as nat);
            assert(low * p <= usize::MAX) by (nonlinear_arith)
                requires
                    low < 128,
                    128 * p <= usize::MAX,
                    p > 0,
            ;
            lemma_usize_mul_pow2_le_max_iff_max_shr(low, shift, usize::MAX);
            lemma_or_shifted(value, low, shift);
            assert(value + low * p < 128 * p) by (nonlinear_arith)
                requires
                    low < 128,
                    value < p,
            ;
            assert(value + p * (low + 128 * rest) == (value + low * p) + (128 * p) * rest)
                by (nonlinear_arith);
        }
        value = value | (low << shift);
        i += 1;
        shift += 7;
    }
    let last: usize = bytes[i] as usize;
    proof {
        lemma_usize_mul_pow2_le_max_iff_max_shr(last, shift, usize::MAX);
        lemma_pow2_pos(shift as nat);
        assert(varint_last(bytes@, i as int) == i);
        assert(varint_value(bytes@, i as int) == last);
        assert(pow2(shift as nat) * last == last * pow2(shift as nat)) by (nonlinear_arith);
    }
    if last > (usize::MAX >> shift) {
        return None;
    }
    proof {
        lemma_or_shifted(value, last, shift);
    }
    value = value | (last << shift);
    Some((value, i + 1))
}

/// Reads an unsigned varint at `index`. The result is `None` when the input
/// ends inside the number, when the number has more seven-bit groups than a
/// machine word has bits to shift them by, or when it does not fit in a
/// machine word.
pub fn decode_uint(bytes: &[u8], index: usize) -> (r: Option<DecodedInt>)
    ensures
        r == spec_decode_uint(bytes@, index as int),
        r matches Some(d) ==> index < d.new_index <= bytes@.len() && d.new_index == index
            + varint_length(bytes@, index as int),
{
    match decode_varint(bytes, index) {
        Some((word, new_index)) => Some(
            DecodedInt::new(#[verifier::truncate] (word as isize), new_index),
        ),
        None => None,
    }
}

/// Reads a signed varint at `index`: an unsigned varint followed by the
/// zig-zag transformation.
pub fn decode_sint(bytes: &[u8], index: usize) -> (r: Option<DecodedInt>)
    ensures
        r == spec_decode_sint(bytes@, index as int),
        r matches Some(d) ==> index < d.new_index <= bytes@.len() && d.new_index == index
            + varint_length(bytes@, index as int),
{
    match decode_varint(bytes, index) {
        Some((word, new_index)) => Some(DecodedInt::new(unzigzag(word), new_index)),
        None => None,
    }
}

/// The signed value that the stored word `u` stands for.
fn unzigzag(u: usize) -> (v: isize)
    ensures
        v == zigzag_decode(u),
{
    let half: usize = u >> 1usize;
    let low: usize = u & 1;
    assert(half == u / 2 && low == u % 2) by (bit_vector)
        requires
            half == u >> 1usize,
            low == u & 1,
    ;
    if low == 0 {
        half as isize
    } else {
        -(half as isize) - 1
    }
}

/// The stored word that stands for the signed value `v`.
fn zigzag(v: isize) -> (u: usize)
    ensures
        u == zigzag_encode(v),
{
    if v >= 0 {
        2 * (v as usize)
    } else {
        2 * ((-(v + 1)) as usize) + 1
    }
}

/// Encodes `value` as an unsigned varint with no more bytes than it needs.
pub fn encode_uint(value: usize) -> (bytes: Vec<u8>)
    ensures
        bytes@ == spec_encode_uint(value as nat),
{
    let mut bytes: Vec<u8> = Vec::new();
    let mut rest: usize = value;
    proof {
        assert(bytes@ + spec_encode_uint(rest as nat) =~= spec_encode_uint(value as nat));
    }
    while rest >= 128
        invariant
            bytes@ + spec_encode_uint(rest as nat) == spec_encode_uint(value as nat),
        decreases rest,
    {
        let ghost before = bytes@;
        bytes.push((rest % 128 + 128) as u8);
        proof {
            assert(bytes@ + spec_encode_uint((rest / 128) as nat) =~= before + spec_encode_uint(
                rest as nat,
            ));
        }
        rest = rest / 128;
    }
    bytes.push(rest as u8);
    proof {
        assert(bytes@ =~= spec_encode_uint(value as nat));
    }
    bytes
}

/// Encodes `value` as a signed varint.
pub fn encode_sint(value: isize) -> (bytes: Vec<u8>)
    ensures
        bytes@ == spec_encode_sint(value),
{
    encode_uint(zigzag(value))
}

/// Reads one machine word at `index`, least significant byte first, wherever
/// it stands. The result is `None` when fewer bytes than a word are left.
pub fn decode_unaligned(bytes: &[u8], index: usize) -> (r: Option<DecodedInt>)
    ensures
        r == spec_decode_unaligned(bytes@, index as int),
{
    let width = word_bytes();
    if index > bytes.len() || bytes.len() - index < width {
        return None;
    }
    let end: usize = index + width;
    let mut value: usize = 0;
    let mut i: usize = end;
    proof {
        lemma2_to64();
    }
    while i > index
        invariant
            index <= i <= end <= bytes.len(),
            end == index + width,
            width == word_size(),
            width == 4 || width == 8,
            value == le_value(bytes@, i as int, end as int),
            value < pow2((8 * (end - i)) as nat),
        decreases i - index,
    {
        i -= 1;
        proof {
            let done = (8 * (end - i - 1)) as nat;
            lemma_pow2_adds(done, 8);
            lemma_pow2_adds(8, done);
            lemma_usize_pow2_no_overflow(done);
            lemma2_to64();
            lemma_shift_byte_in(value, bytes@[i as int], done);
        }
        value = (value << 8usize) | (bytes[i] as usize);
    }
    Some(DecodedInt::new(#[verifier::truncate] (value as isize), end))
}

/// Shifting a word that leaves its top byte unused up by one byte and
/// placing a byte below it multiplies by 256 and adds the byte.
proof fn lemma_shift_byte_in(value: usize, b: u8, done: nat)
    requires
        value < pow2(done),
        done + 8 <= usize::BITS,
    ensures
        ((value << 8usize) | (b as usize)) == b + 256 * value,
        b + 256 * value < pow2(done + 8),
{
    lemma_pow2_adds(done, 8);
    lemma2_to64();
    let spare = (usize::BITS - 8 - done) as nat;
    lemma_pow2_adds(done + 8, spare);
    lemma_pow2_pos(spare);
    assert(pow2((done + 8 + spare) as nat) == usize::MAX + 1);
    assert(256 * value + 255 < pow2(done + 8) * pow2(spare)) by (nonlinear_arith)
        requires
            value < pow2(done),
            pow2(done + 8) == pow2(done) * 256,
            pow2(spare) >= 1,
    ;
    lemma_usize_shl_is_mul(value, 8);
    lemma_usize_shr_is_div(value << 8usize, 8);
    assert((value * 256) / 256 == value);
    let shifted: usize = value << 8usize;
    assert((shifted | (b as usize)) == (b as usize) + shifted) by (bit_vector)
        requires
            shifted == value << 8usize,
    ;
    assert(b + 256 * value < 256 * pow2(done)) by (nonlinear_arith)
        requires
            value < pow2(done),
            b < 256,
    ;
}

proof fn lemma_canonical_rest_positive(bytes: Seq<u8>, index: int)
    requires
        0 <= index,
        varint_last(bytes, index) < bytes.len(),
        bytes[varint_last(bytes, index)] != 0,
    ensures
        varint_value(bytes, index) >= 1,
    decreases bytes.len() - index,
{
    if index < bytes.len() && bytes[index] >= 0x80 {
        lemma_varint_last_bounds(bytes, index + 1);
        lemma_canonical_rest_positive(bytes, index + 1);
    }
}

proof fn lemma_encode_of_value(bytes: Seq<u8>, index: int)
    requires
        0 <= index,
        varint_last(bytes, index) < bytes.len(),
        varint_canonical(bytes, index),
    ensures
        spec_encode_uint(varint_value(bytes, index)) == bytes.subrange(
            index,
            varint_last(bytes, index) + 1,
        ),
    decreases bytes.len() - index,
{
    let last = varint_last(bytes, index);
    lemma_varint_last_bounds(bytes, index);
    if bytes[index] < 0x80 {
        assert(bytes.subrange(index, index + 1) =~= seq![bytes[index]]);
    } else {
        lemma_varint_last_bounds(bytes, index + 1);
        let rest = varint_value(bytes, index + 1);
        let value = varint_value(bytes, index);
        lemma_canonical_rest_positive(bytes, index + 1);
        lemma_encode_of_value(bytes, index + 1);
        assert(value % 128 == bytes[index] - 0x80 && value / 128 == rest) by (nonlinear_arith)
            requires
                value == (bytes[index] - 0x80) + 128 * rest,
                0 <= bytes[index] - 0x80 < 128,
        ;
        assert(bytes.subrange(index, last + 1) =~= seq![bytes[index]] + bytes.subrange(
            index + 1,
            last + 1,
        ));
    }
}

proof fn lemma_decode_of_encoding(bytes: Seq<u8>, index: int, n: nat)
    requires
        0 <= index,
        index + spec_encode_uint(n).len() <= bytes.len(),
        forall|j: int|
            0 <= j < spec_encode_uint(n).len() ==> bytes[index + j] == #[trigger] spec_encode_uint(
                n,
            )[j],
    ensures
        varint_last(bytes, index) == index + spec_encode_uint(n).len() - 1,
        varint_value(bytes, index) == n,
        n >= 1 ==> n >= pow2((7 * (spec_encode_uint(n).len() - 1)) as nat),
    decreases n,
{
    let encoding = spec_encode_uint(n);
    lemma2_to64();
    assert(bytes[index] == encoding[0]);
    if n >= 128 {
        let rest = spec_encode_uint(n / 128);
        assert forall|j: int| 0 <= j < rest.len() implies bytes[index + 1 + j] == #[trigger] rest[j] by {
            assert(bytes[index + (j + 1)] == encoding[j + 1]);
        }
        lemma_decode_of_encoding(bytes, index + 1, n / 128);
        let groups = (7 * (rest.len() - 1)) as nat;
        lemma_pow2_adds(groups, 7);
        assert(n >= 128 * pow2(groups)) by (nonlinear_arith)
            requires
                n / 128 >= pow2(groups),
                n >= 128,
        ;
    }
}

/// Encoding a word as an unsigned varint and decoding the bytes gives the
/// word back, and takes all of the bytes.
pub proof fn lemma_encode_then_decode(n: usize)
    ensures
        spec_decode_varint(spec_encode_uint(n as nat), 0) == Some(
            (n, spec_encode_uint(n as nat).len() as usize),
        ),
        spec_encode_uint(n as nat).len() <= 10,
{
    let encoding = spec_encode_uint(n as nat);
    lemma_decode_of_encoding(encoding, 0, n as nat);
    let groups = (7 * (encoding.len() - 1)) as nat;
    lemma2_to64();
    if n >= 1 && groups >= usize::BITS {
        if groups > usize::BITS {
            vstd::arithmetic::power2::lemma_pow2_strictly_increases(usize::BITS as nat, groups);
        }
    }
    if groups >= 70 {
        vstd::arithmetic::power2::lemma_pow2_strictly_increases(64, groups);
    }
}

/// The zig-zag transformation loses nothing: every stored word comes back
/// from the value that it stands for, and every value from its stored word.
pub proof fn lemma_zigzag_round_trip(u: usize, v: isize)
    ensures
        zigzag_encode(zigzag_decode(u)) == u,
        zigzag_decode(zigzag_encode(v)) == v,
{
}

/// Decoding an unsigned varint that has no more bytes than it needs, and
/// encoding the value again, gives the bytes that were decoded.
pub proof fn lemma_uint_round_trip(bytes: Seq<u8>, index: int)
    requires
        bytes.len() <= usize::MAX,
        spec_decode_uint(bytes, index) is Some,
        varint_canonical(bytes, index),
    ensures
        spec_encode_uint((spec_decode_uint(bytes, index)->Some_0.value as usize) as nat)
            == bytes.subrange(index, spec_decode_uint(bytes, index)->Some_0.new_index as int),
{
    lemma_varint_last_bounds(bytes, index);
    lemma_encode_of_value(bytes, index);
    let word = spec_decode_varint(bytes, index)->Some_0.0;
    assert(((word as isize) as usize) == word) by (bit_vector);
}

/// Decoding a signed varint that has no more bytes than it needs, and
/// encoding the value again, gives the bytes that were decoded.
pub proof fn lemma_sint_round_trip(bytes: Seq<u8>, index: int)
    requires
        bytes.len() <= usize::MAX,
        spec_decode_sint(bytes, index) is Some,
        varint_canonical(bytes, index),
    ensures
        spec_encode_sint(spec_decode_sint(bytes, index)->Some_0.value) == bytes.subrange(
            index,
            spec_decode_sint(bytes, index)->Some_0.new_index as int,
        ),
{
    let word = spec_decode_varint(bytes, index)->Some_0.0;
    lemma_zigzag_round_trip(word, 0);
    lemma_varint_last_bounds(bytes, index);
    lemma_encode_of_value(bytes, index);
}

} // verus!
