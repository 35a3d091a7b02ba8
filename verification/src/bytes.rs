//! Numbers as bytes: little-endian integers, and lengths of one to nine bytes.
use vstd::arithmetic::div_mod::{
    lemma_div_denominator, lemma_fundamental_div_mod, lemma_fundamental_div_mod_converse,
};
use vstd::arithmetic::power2::{
    lemma2_to64, lemma2_to64_rest, lemma_pow2_adds, lemma_pow2_pos, lemma_pow2_strictly_increases,
    lemma_pow2_unfold, pow2,
};
use vstd::prelude::*;

verus! {

// LITTLE-ENDIAN NUMBERS
// ================================================================================================
/// The last `count` bytes of a number, least significant first.
pub open spec fn le_bytes(value: nat, count: nat) -> Seq<u8>
    decreases count,
{
    if count == 0 {
        Seq::empty()
    } else {
        seq![(value % 256) as u8] + le_bytes(value / 256, (count - 1) as nat)
    }
}

/// The number that bytes stand for, least significant first.
pub open spec fn le_value(bytes: Seq<u8>) -> nat
    decreases bytes.len(),
{
    if bytes.len() == 0 {
        0
    } else {
        bytes[0] as nat + 256 * le_value(bytes.skip(1))
    }
}

/// There are as many bytes as asked for.
pub proof fn lemma_le_len(value: nat, count: nat)
    ensures
        le_bytes(value, count).len() == count,
    decreases count,
{
    if count > 0 {
        lemma_le_len(value / 256, (count - 1) as nat);
    }
}

/// Eight bits make a byte.
proof fn lemma_byte_power(count: nat)
    requires
        count > 0,
    ensures
        pow2(8 * count) == 256 * pow2((8 * (count - 1)) as nat),
{
    lemma_pow2_adds(8, (8 * (count - 1)) as nat);
    lemma2_to64();
}

/// A number that fits is what its bytes stand for.
pub proof fn lemma_le_inverse(value: nat, count: nat)
    requires
        value < pow2(8 * count),
    ensures
        le_value(le_bytes(value, count)) == value,
    decreases count,
{
    if count == 0 {
        lemma2_to64();
        assert(pow2(8 * count) == 1);
    } else {
        let rest = (count - 1) as nat;
        lemma_byte_power(count);
        assert(value / 256 < pow2(8 * rest)) by (nonlinear_arith)
            requires
                value < 256 * pow2(8 * rest),
        ;
        lemma_le_inverse(value / 256, rest);
        let bytes = le_bytes(value, count);
        assert(bytes.skip(1) =~= le_bytes(value / 256, rest));
        assert(bytes[0] == (value % 256) as u8);
    }
}

/// Bytes stand for a number of as many bits.
pub proof fn lemma_le_bound(bytes: Seq<u8>)
    ensures
        le_value(bytes) < pow2(8 * bytes.len()),
    decreases bytes.len(),
{
    if bytes.len() == 0 {
        lemma2_to64();
    } else {
        lemma_le_bound(bytes.skip(1));
        lemma_byte_power(bytes.len());
        let rest = le_value(bytes.skip(1));
        let power = pow2((8 * (bytes.len() - 1)) as nat);
        assert(bytes[0] as nat + 256 * rest < 256 * power) by (nonlinear_arith)
            requires
                rest < power,
                bytes[0] < 256,
        ;
    }
}

/// Appends the last `count` bytes of a number.
pub fn write_le(bytes: &mut Vec<u8>, value: u64, count: usize)
    ensures
        final(bytes)@ == old(bytes)@ + le_bytes(value as nat, count as nat),
{
    let ghost before = bytes@;
    let mut rest: u64 = value;
    let mut i: usize = 0;
    while i < count
        invariant
            i <= count,
            before + le_bytes(value as nat, count as nat) == bytes@ + le_bytes(
                rest as nat,
                (count - i) as nat,
            ),
        decreases count - i,
    {
        let ghost now = bytes@;
        let byte: u8 = (rest % 256) as u8;
        bytes.push(byte);
        proof {
            let tail = le_bytes((rest / 256) as nat, (count - i - 1) as nat);
            assert(now + (seq![byte] + tail) =~= now.push(byte) + tail);
        }
        rest = rest / 256;
        i += 1;
    }
    assert(bytes@ + le_bytes(rest as nat, 0) =~= bytes@);
}

/// Returns the number that `count` bytes stand for, from a position on.
pub fn read_le(bytes: &Vec<u8>, from: usize, count: usize) -> (value: Option<u64>)
    requires
        from <= bytes@.len(),
        count <= 8,
    ensures
        value == if from + count <= bytes@.len() {
            Some(le_value(bytes@.subrange(from as int, from + count)) as u64)
        } else {
            None
        },
        value is Some ==> le_value(bytes@.subrange(from as int, from + count)) <= u64::MAX,
{
    if count > bytes.len() - from {
        return None;
    }
    let ghost all = bytes@.subrange(from as int, from + count);
    proof {
        lemma_le_bound(all);
        lemma2_to64_rest();
        assert(pow2(64) == 0x1_0000_0000_0000_0000);
        if count < 8 {
            lemma_pow2_strictly_increases((8 * count) as nat, 64);
        }
    }
    let mut value: u64 = 0;
    let mut i: usize = count;
    assert(all.skip(count as int) =~= Seq::<u8>::empty());
    while i > 0
        invariant
            i <= count <= 8,
            from + count <= bytes@.len(),
            from + count <= usize::MAX,
            all == bytes@.subrange(from as int, from + count),
            le_value(all) <= u64::MAX,
            value == le_value(all.skip(i as int)),
        decreases i,
    {
        let ghost k = (i - 1) as int;
        proof {
            assert(all.skip(k).skip(1) =~= all.skip(i as int));
            assert(all.skip(k)[0] == all[k]);
            lemma_le_suffix(all, k);
        }
        i -= 1;
        value = value * 256 + bytes[from + i] as u64;
    }
    assert(all.skip(0) =~= all);
    Some(value)
}

/// The last bytes stand for at most the number that all of them stand for.
proof fn lemma_le_suffix(bytes: Seq<u8>, k: int)
    requires
        0 <= k <= bytes.len(),
    ensures
        le_value(bytes.skip(k)) <= le_value(bytes),
    decreases k,
{
    if k > 0 {
        lemma_le_suffix(bytes.skip(1), k - 1);
        assert(bytes.skip(1).skip(k - 1) =~= bytes.skip(k));
    } else {
        assert(bytes.skip(0) =~= bytes);
    }
}

// LENGTHS
// ================================================================================================
/// How many bytes a length takes: one for every seven bits, and nine for the largest ones.
pub open spec fn length_size(value: nat) -> nat {
    if value < pow2(7) {
        1
    } else if value < pow2(14) {
        2
    } else if value < pow2(21) {
        3
    } else if value < pow2(28) {
        4
    } else if value < pow2(35) {
        5
    } else if value < pow2(42) {
        6
    } else if value < pow2(49) {
        7
    } else if value < pow2(56) {
        8
    } else {
        9
    }
}

/// The bytes of a length. The number of zero bits before the first one bit says how many bytes
/// follow the first one; the bits after that are the length.
pub open spec fn length_bytes(value: nat) -> Seq<u8> {
    let size = length_size(value);
    if size == 9 {
        seq![0u8] + le_bytes(value, 8)
    } else {
        le_bytes((2 * value + 1) * pow2((size - 1) as nat), size)
    }
}

/// The number of zero bits before the first one bit, among the last `bits` bits.
pub open spec fn low_zeros(value: nat, bits: nat) -> nat
    decreases bits,
{
    if bits == 0 || value % 2 == 1 {
        0
    } else {
        1 + low_zeros(value / 2, (bits - 1) as nat)
    }
}

/// The length at the start of bytes, and how many bytes it takes.
pub open spec fn length_at(bytes: Seq<u8>) -> Option<(nat, nat)> {
    if bytes.len() == 0 {
        None
    } else {
        let size = low_zeros(bytes[0] as nat, 8) + 1;
        if bytes.len() < size {
            None
        } else if size == 9 {
            Some((le_value(bytes.subrange(1, 9)), 9))
        } else {
            Some((le_value(bytes.subrange(0, size as int)) / pow2(size), size))
        }
    }
}

/// The size of a length is that of the bits it has.
proof fn lemma_length_size(value: nat)
    requires
        value <= u64::MAX,
    ensures
        1 <= length_size(value) <= 9,
        length_size(value) <= 8 ==> value < pow2(7 * length_size(value)),
{
}

/// The zero bits of a number are those of its last bits.
proof fn lemma_low_zeros_mod(value: nat, bits: nat)
    ensures
        low_zeros(value % pow2(bits), bits) == low_zeros(value, bits),
    decreases bits,
{
    if bits > 0 {
        let rest = (bits - 1) as nat;
        lemma_pow2_unfold(bits);
        lemma_pow2_pos(rest);
        let p = pow2(rest) as int;
        let n = value as int;
        let q = n / (2 * p);
        let r = n % (2 * p);
        lemma_fundamental_div_mod(n, 2 * p);
        assert((2 * p) * q == 2 * (p * q)) by (nonlinear_arith);
        assert(p * q == q * p) by (nonlinear_arith);
        assert(r % 2 == n % 2);
        assert(n / 2 == q * p + r / 2);
        lemma_fundamental_div_mod_converse(n / 2, p, q, r / 2);
        assert(value % pow2(bits) == r);
        assert((value / 2) % pow2(rest) == r / 2);
        lemma_low_zeros_mod(value / 2, rest);
        assert((value % pow2(bits)) / 2 == (value / 2) % pow2(rest));
    } else {
        lemma2_to64();
    }
}

/// An odd number times a power of two has as many zero bits as the power says.
proof fn lemma_low_zeros_shifted(odd: nat, zeros: nat, bits: nat)
    requires
        odd % 2 == 1,
        zeros < bits,
    ensures
        low_zeros(odd * pow2(zeros), bits) == zeros,
    decreases zeros,
{
    if zeros == 0 {
        lemma2_to64();
        assert(odd * pow2(0) == odd) by (nonlinear_arith)
            requires
                pow2(0) == 1,
        ;
    } else {
        let rest = (zeros - 1) as nat;
        lemma_pow2_unfold(zeros);
        let half = odd * pow2(rest);
        assert(odd * pow2(zeros) == 2 * half) by (nonlinear_arith)
            requires
                pow2(zeros) == 2 * pow2(rest),
                half == odd * pow2(rest),
        ;
        lemma_low_zeros_shifted(odd, rest, (bits - 1) as nat);
    }
}

/// A length is read back from its bytes, whatever follows them.
pub proof fn lemma_length_inverse(value: nat, rest: Seq<u8>)
    requires
        value <= u64::MAX,
    ensures
        length_at(length_bytes(value) + rest) == Some((value, length_bytes(value).len())),
        length_bytes(value).len() == length_size(value),
{
    let size = length_size(value);
    let bytes = length_bytes(value) + rest;
    lemma_length_size(value);
    if size == 9 {
        lemma_le_len(value, 8);
        lemma2_to64_rest();
        lemma_le_inverse(value, 8);
        assert(bytes[0] == 0u8);
        reveal_with_fuel(low_zeros, 9);
        assert(low_zeros(0, 8) == 8);
        assert(bytes.subrange(1, 9) =~= le_bytes(value, 8));
    } else {
        let power = pow2((size - 1) as nat);
        let number = (2 * value + 1) * power;
        lemma_pow2_pos((size - 1) as nat);
        lemma_pow2_unfold(size);
        assert(pow2(size) == 2 * power);
        // The number fits.
        lemma_pow2_adds((7 * size) as nat, size);
        let limit = pow2((7 * size) as nat);
        assert(pow2((8 * size) as nat) == limit * (2 * power));
        assert(number < limit * (2 * power)) by (nonlinear_arith)
            requires
                value < limit,
                power > 0,
                number == (2 * value + 1) * power,
        ;
        lemma_le_inverse(number, size);
        lemma_le_len(number, size);
        assert(bytes.subrange(0, size as int) =~= le_bytes(number, size));
        // The first byte tells the size.
        assert(bytes[0] == (number % 256) as u8);
        lemma2_to64();
        lemma_low_zeros_mod(number, 8);
        lemma_low_zeros_shifted(2 * value + 1, (size - 1) as nat, 8);
        // The length is what is left after the marker.
        assert(number == value * (2 * power) + power) by (nonlinear_arith)
            requires
                number == (2 * value + 1) * power,
        ;
        lemma_fundamental_div_mod_converse(
            number as int,
            (2 * power) as int,
            value as int,
            power as int,
        );
    }
}

/// Returns a power of two.
fn power_of_two(exponent: usize) -> (power: u64)
    requires
        exponent < 64,
    ensures
        power == pow2(exponent as nat),
{
    proof {
        lemma2_to64();
        lemma2_to64_rest();
    }
    let mut power: u64 = 1;
    let mut i: usize = 0;
    while i < exponent
        invariant
            i <= exponent < 64,
            power == pow2(i as nat),
        decreases exponent - i,
    {
        proof {
            lemma_pow2_unfold((i + 1) as nat);
            lemma2_to64_rest();
            lemma_pow2_strictly_increases((i + 1) as nat, 64);
        }
        power = power * 2;
        i += 1;
    }
    power
}

/// Appends a length.
pub fn write_length(bytes: &mut Vec<u8>, value: usize)
    ensures
        final(bytes)@ == old(bytes)@ + length_bytes(value as nat),
{
    let ghost before = bytes@;
    let length: u64 = value as u64;
    let mut size: usize = 1;
    proof {
        lemma2_to64();
        lemma2_to64_rest();
    }
    while size < 9 && length >= power_of_two(7 * size)
        invariant
            1 <= size <= 9,
            length == value,
            size > 1 ==> length >= pow2((7 * (size - 1)) as nat),
        decreases 9 - size,
    {
        size += 1;
    }
    proof {
        lemma2_to64();
        lemma2_to64_rest();
        assert(size == length_size(length as nat));
    }
    if size == 9 {
        bytes.push(0);
        write_le(bytes, length, 8);
        assert(bytes@ =~= before + (seq![0u8] + le_bytes(length as nat, 8)));
    } else {
        proof {
            let power = pow2((size - 1) as nat);
            lemma_pow2_pos((size - 1) as nat);
            lemma_pow2_unfold(size as nat);
            lemma_pow2_adds((7 * size) as nat, size as nat);
            let limit = pow2((7 * size) as nat);
            assert((2 * length + 1) * power < limit * (2 * power)) by (nonlinear_arith)
                requires
                    length < limit,
                    power > 0,
            ;
            if size < 8 {
                lemma_pow2_strictly_increases((8 * size) as nat, 64);
            }
        }
        let number: u64 = (2 * length + 1) * power_of_two(size - 1);
        write_le(bytes, number, size);
    }
}

/// Returns the number of zero bits before the first one bit of a byte.
fn count_low_zeros(byte: u8) -> (zeros: usize)
    ensures
        zeros == low_zeros(byte as nat, 8),
        zeros <= 8,
{
    let mut rest: u8 = byte;
    let mut zeros: usize = 0;
    while zeros < 8 && rest % 2 == 0
        invariant
            zeros <= 8,
            low_zeros(byte as nat, 8) == zeros + low_zeros(rest as nat, (8 - zeros) as nat),
        decreases 8 - zeros,
    {
        rest = rest / 2;
        zeros += 1;
    }
    zeros
}

/// Returns the length at a position, and how many bytes it takes. A length that the machine cannot
/// hold is refused.
pub fn read_length(bytes: &Vec<u8>, from: usize) -> (length: Option<(usize, usize)>)
    requires
        from <= bytes@.len(),
    ensures
        match length_at(bytes@.skip(from as int)) {
            Some((value, size)) => if value <= usize::MAX {
                length == Some((value as usize, size as usize)) && from + size <= bytes@.len()
            } else {
                length is None
            },
            None => length is None,
        },
{
    let ghost all = bytes@.skip(from as int);
    if from == bytes.len() {
        return None;
    }
    let size: usize = count_low_zeros(bytes[from]) + 1;
    assert(all[0] == bytes@[from as int]);
    if bytes.len() - from < size {
        return None;
    }
    let value: u64 = if size == 9 {
        assert(bytes@.subrange(from + 1, from + 9) =~= all.subrange(1, 9));
        match read_le(bytes, from + 1, 8) {
            Some(value) => value,
            None => {
                return None;
            },
        }
    } else {
        assert(bytes@.subrange(from as int, from + size) =~= all.subrange(0, size as int));
        match read_le(bytes, from, size) {
            Some(number) => {
                proof {
                    lemma_pow2_pos(size as nat);
                }
                number / power_of_two(size)
            },
            None => {
                return None;
            },
        }
    };
    if value > usize::MAX as u64 {
        return None;
    }
    Some((value as usize, size))
}

// PARTS
// ================================================================================================
/// Returns a part of bytes.
pub fn sub_vector(bytes: &Vec<u8>, from: usize, to: usize) -> (part: Vec<u8>)
    requires
        from <= to <= bytes@.len(),
    ensures
        part@ == bytes@.subrange(from as int, to as int),
{
    let mut part: Vec<u8> = Vec::new();
    let mut i: usize = from;
    while i < to
        invariant
            from <= i <= to <= bytes@.len(),
            part@ == bytes@.subrange(from as int, i as int),
        decreases to - i,
    {
        part.push(bytes[i]);
        i += 1;
    }
    part
}

// LAWS
// ================================================================================================
/// The byte at a position is the digit of the number at that position, to the base 256.
pub proof fn law_le_digits(value: nat, count: nat, i: nat)
    requires
        i < count,
    ensures
        le_bytes(value, count).len() == count,
        le_bytes(value, count)[i as int] as nat == value / pow2(8 * i) % 256,
    decreases count,
{
    lemma_le_len(value, count);
    let rest = (count - 1) as nat;
    if i == 0 {
        lemma2_to64();
        assert(value / 1 == value);
    } else {
        let before = (i - 1) as nat;
        law_le_digits(value / 256, rest, before);
        lemma_byte_power(i);
        lemma_pow2_pos(8 * before);
        lemma_div_denominator(value as int, 256, pow2(8 * before) as int);
        assert(le_bytes(value, count)[i as int] == le_bytes(value / 256, rest)[before as int]);
    }
}

/// The bytes of a number that was read from bytes are these bytes.
pub proof fn law_le_is_what_was_read(bytes: Seq<u8>)
    ensures
        le_bytes(le_value(bytes), bytes.len()) == bytes,
    decreases bytes.len(),
{
    if bytes.len() > 0 {
        let others = bytes.skip(1);
        law_le_is_what_was_read(others);
        let value = le_value(bytes);
        assert(value % 256 == bytes[0] as nat && value / 256 == le_value(others));
        assert(le_bytes(value, bytes.len()) =~= seq![bytes[0]] + others);
        assert(seq![bytes[0]] + others =~= bytes);
    } else {
        assert(le_bytes(le_value(bytes), bytes.len()) =~= bytes);
    }
}

/// A length takes as few bytes as can hold seven bits of it each, and at most nine; the value of these
/// bytes is the length behind a one bit and as many zero bits as bytes follow the first.
pub proof fn law_length_layout(value: nat)
    requires
        value <= u64::MAX,
    ensures
        ({
            let bytes = length_bytes(value);
            &&& 1 <= bytes.len() <= 9
            &&& bytes.len() < 9 ==> value < pow2(7 * bytes.len())
            &&& bytes.len() > 1 ==> value >= pow2((7 * (bytes.len() - 1)) as nat)
            &&& bytes.len() == 1 ==> bytes[0] as nat == 2 * value + 1
            &&& bytes.len() == 9 ==> bytes[0] == 0 && bytes.skip(1) == le_bytes(value, 8)
            &&& bytes.len() < 9 ==> bytes == le_bytes(
                (2 * value + 1) * pow2((bytes.len() - 1) as nat),
                bytes.len(),
            )
        }),
{
    let size = length_size(value);
    let bytes = length_bytes(value);
    lemma_length_size(value);
    if size == 9 {
        lemma_le_len(value, 8);
        assert(bytes.skip(1) =~= le_bytes(value, 8));
    } else {
        lemma_le_len((2 * value + 1) * pow2((size - 1) as nat), size);
        if size == 1 {
            lemma2_to64();
            let whole = (2 * value + 1) * pow2(0);
            assert(whole == 2 * value + 1) by (nonlinear_arith)
                requires
                    whole == (2 * value + 1) * pow2(0),
                    pow2(0) == 1,
            ;
            assert(bytes[0] == (whole % 256) as u8);
        }
    }
}


/// The zero bits before the first one bit are counted: the number is an odd multiple of that power of
/// two, unless all of the bits are zero.
pub proof fn law_low_zeros(value: nat, bits: nat)
    ensures
        low_zeros(value, bits) <= bits,
        low_zeros(value, bits) < bits ==> value % pow2(low_zeros(value, bits) + 1) == pow2(
            low_zeros(value, bits),
        ),
        low_zeros(value, bits) == bits ==> value % pow2(bits) == 0,
    decreases bits,
{
    lemma2_to64();
    if bits == 0 {
        assert(value % 1 == 0);
    } else if value % 2 == 0 {
        let rest = (bits - 1) as nat;
        let half = value / 2;
        law_low_zeros(half, rest);
        let z = low_zeros(half, rest);
        let p = if z < rest {
            z + 1
        } else {
            rest
        };
        lemma_pow2_unfold(p + 1);
        lemma_pow2_pos(p);
        let m = pow2(p) as int;
        lemma_fundamental_div_mod(half as int, m);
        let q = half as int / m;
        let r = half as int % m;
        assert(value as int == (2 * m) * q + 2 * r) by (nonlinear_arith)
            requires
                value as int == 2 * half as int,
                half as int == m * q + r,
        ;
        assert((2 * m) * q == q * (2 * m)) by (nonlinear_arith);
        lemma_fundamental_div_mod_converse(value as int, 2 * m, q, 2 * r);
        if z < rest {
            lemma_pow2_unfold(z + 1);
        }
    } else {
        assert(low_zeros(value, bits) == 0);
        assert(pow2(1) == 2 && pow2(0) == 1);
    }
}

/// A length is read if and only if there are as many bytes as its first byte asks for: one more than it
/// has zero bits before its first one bit. It is what is left of these bytes behind that bit, or, behind
/// a zero byte, the eight bytes after it.
pub proof fn law_length_is_read(bytes: Seq<u8>)
    ensures
        bytes.len() == 0 ==> length_at(bytes) is None,
        bytes.len() > 0 ==> {
            let size = low_zeros(bytes[0] as nat, 8) + 1;
            &&& length_at(bytes) is Some <==> bytes.len() >= size
            &&& length_at(bytes) matches Some((value, used)) ==> {
                &&& used == size
                &&& size < 9 ==> value == le_value(bytes.take(size as int)) / pow2(size)
                &&& size == 9 ==> bytes[0] == 0 && value == le_value(bytes.subrange(1, 9))
            }
        },
{
    if bytes.len() > 0 {
        law_low_zeros(bytes[0] as nat, 8);
        lemma2_to64();
        let size = low_zeros(bytes[0] as nat, 8) + 1;
        if bytes.len() >= size && size < 9 {
            assert(bytes.take(size as int) =~= bytes.subrange(0, size as int));
        }
    }
}

} // verus!
