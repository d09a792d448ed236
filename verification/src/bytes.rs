//! Little-endian numbers in byte sequences.
use vstd::prelude::*;

verus! {

/// The `k` low bytes of `n`, the least significant first.
pub open spec fn le_bytes(n: nat, k: nat) -> Seq<u8>
    decreases k,
{
    if k == 0 {
        Seq::empty()
    } else {
        seq![(n % 256) as u8] + le_bytes(n / 256, (k - 1) as nat)
    }
}

/// The number that bytes stand for, the least significant first.
pub open spec fn le_value(b: Seq<u8>) -> nat
    decreases b.len(),
{
    if b.len() == 0 {
        0
    } else {
        b[0] as nat + 256 * le_value(b.drop_first())
    }
}

/// The value of the `k` bytes that start at `at`.
pub open spec fn le_at(b: Seq<u8>, at: int, k: int) -> nat {
    le_value(b.subrange(at, at + k))
}

/// How many numbers `k` bytes tell apart.
pub open spec fn byte_range(k: nat) -> nat
    decreases k,
{
    if k == 0 {
        1
    } else {
        256 * byte_range((k - 1) as nat)
    }
}

/// The unsigned number with the bits of a signed one.
pub open spec fn unsigned_of(v: int, range: int) -> nat {
    if v < 0 {
        (v + range) as nat
    } else {
        v as nat
    }
}

/// The signed number with the bits of an unsigned one.
pub open spec fn signed_of(n: nat, range: int) -> int {
    if n < range / 2 {
        n as int
    } else {
        n - range
    }
}

pub proof fn lemma_le_bytes_len(n: nat, k: nat)
    ensures
        le_bytes(n, k).len() == k,
    decreases k,
{
    if k > 0 {
        lemma_le_bytes_len(n / 256, (k - 1) as nat);
    }
}

/// Bytes written from a number read back as that number.
pub proof fn le_value_of_le_bytes(n: nat, k: nat)
    requires
        n < byte_range(k),
    ensures
        le_value(le_bytes(n, k)) == n,
    decreases k,
{
    if k > 0 {
        assert(n / 256 < byte_range((k - 1) as nat));
        le_value_of_le_bytes(n / 256, (k - 1) as nat);
        let b = le_bytes(n, k);
        assert(b.drop_first() =~= le_bytes(n / 256, (k - 1) as nat));
        assert(b[0] == (n % 256) as u8);
    }
}

pub proof fn lemma_byte_ranges()
    ensures
        byte_range(1) == 0x100,
        byte_range(2) == 0x1_0000,
        byte_range(4) == 0x1_0000_0000,
        byte_range(8) == 0x1_0000_0000_0000_0000,
{
    reveal_with_fuel(byte_range, 9);
}

/// `k` bytes stand for a number in their range.
pub proof fn lemma_le_value_bound(b: Seq<u8>)
    ensures
        le_value(b) < byte_range(b.len()),
    decreases b.len(),
{
    if b.len() > 0 {
        lemma_le_value_bound(b.drop_first());
    }
}

/// More bytes tell more numbers apart.
proof fn lemma_byte_range_grows(j: nat, k: nat)
    requires
        j <= k,
    ensures
        0 < byte_range(j) <= byte_range(k),
    decreases k,
{
    if j < k {
        lemma_byte_range_grows(j, (k - 1) as nat);
    } else if k > 0 {
        lemma_byte_range_grows((j - 1) as nat, (k - 1) as nat);
    }
}

/// Appends the `k` low bytes of `n`.
pub fn push_le(out: &mut Vec<u8>, n: u64, k: usize)
    ensures
        final(out)@ == old(out)@ + le_bytes(n as nat, k as nat),
    decreases k,
{
    if k > 0 {
        out.push((n % 256) as u8);
        push_le(out, n / 256, k - 1);
        assert(out@ =~= old(out)@ + le_bytes(n as nat, k as nat));
    } else {
        assert(out@ =~= old(out)@ + le_bytes(n as nat, 0));
    }
}

/// Appends `k` zero bytes.
pub fn push_zeros(out: &mut Vec<u8>, k: usize)
    ensures
        final(out)@ == old(out)@ + Seq::new(k as nat, |i: int| 0u8),
    decreases k,
{
    if k > 0 {
        out.push(0);
        push_zeros(out, k - 1);
    }
    assert(out@ =~= old(out)@ + Seq::new(k as nat, |i: int| 0u8));
}

/// Reads the number in the `k` bytes that start at `at`.
pub fn read_le(b: &[u8], at: usize, k: usize) -> (n: u64)
    requires
        at + k <= b@.len(),
        k <= 8,
    ensures
        n as nat == le_at(b@, at as int, k as int),
        (n as nat) < byte_range(k as nat),
    decreases k,
{
    let ghost window = b@.subrange(at as int, at + k);
    proof {
        lemma_le_value_bound(window);
        lemma_byte_ranges();
        lemma_byte_range_grows(k as nat, 8);
    }
    if k == 0 {
        return 0;
    }
    assert(at + k <= b.len());
    let rest: u64 = read_le(b, at + 1, k - 1);
    assert(window.drop_first() =~= b@.subrange(at + 1, at + 1 + (k - 1)));
    assert(window[0] == b@[at as int]);
    b[at] as u64 + 256 * rest
}

/// The bits of a signed 32-bit number.
pub fn bits_of_i32(v: i32) -> (n: u32)
    ensures
        n == unsigned_of(v as int, 0x1_0000_0000),
{
    if v < 0 {
        (v as i64 + 0x1_0000_0000) as u32
    } else {
        v as u32
    }
}

/// The signed 32-bit number with these bits.
pub fn i32_of_bits(n: u32) -> (v: i32)
    ensures
        v == signed_of(n as nat, 0x1_0000_0000),
{
    if n < 0x8000_0000 {
        n as i32
    } else {
        (n as i64 - 0x1_0000_0000) as i32
    }
}

/// The bits of a signed 64-bit number.
pub fn bits_of_i64(v: i64) -> (n: u64)
    ensures
        n == unsigned_of(v as int, 0x1_0000_0000_0000_0000),
{
    if v < 0 {
        (v as i128 + 0x1_0000_0000_0000_0000) as u64
    } else {
        v as u64
    }
}

/// The signed 64-bit number with these bits.
pub fn i64_of_bits(n: u64) -> (v: i64)
    ensures
        v == signed_of(n as nat, 0x1_0000_0000_0000_0000),
{
    if n < 0x8000_0000_0000_0000 {
        n as i64
    } else {
        (n as i128 - 0x1_0000_0000_0000_0000) as i64
    }
}

// ---------------------------------------------------------------------------------------
// What bytes and numbers have to do with each other
// ---------------------------------------------------------------------------------------

/// Two, four or eight bytes stand for the number with the least significant byte first.
pub proof fn low_byte_counts_least(b: Seq<u8>, at: int)
    requires
        0 <= at,
    ensures
        at + 2 <= b.len() ==> le_at(b, at, 2) == b[at] + 256 * b[at + 1],
        at + 4 <= b.len() ==> le_at(b, at, 4) == b[at] + 256 * b[at + 1] + 65536 * b[at + 2]
            + 16777216 * b[at + 3],
        at + 8 <= b.len() ==> le_at(b, at, 8) == b[at] + 256 * b[at + 1] + 65536 * b[at + 2]
            + 16777216 * b[at + 3] + 4294967296 * (b[at + 4] + 256 * b[at + 5] + 65536 * b[at + 6]
            + 16777216 * b[at + 7]),
{
    if at + 2 <= b.len() {
        lemma_le_at_step(b, at, 2);
        lemma_le_at_step(b, at + 1, 1);
        lemma_le_at_step(b, at + 2, 0);
    }
    if at + 4 <= b.len() {
        lemma_le_at_step(b, at, 4);
        lemma_le_at_step(b, at + 1, 3);
        lemma_le_at_step(b, at + 2, 2);
        lemma_le_at_step(b, at + 3, 1);
        lemma_le_at_step(b, at + 4, 0);
    }
    if at + 8 <= b.len() {
        lemma_le_at_step(b, at, 8);
        lemma_le_at_step(b, at + 1, 7);
        lemma_le_at_step(b, at + 2, 6);
        lemma_le_at_step(b, at + 3, 5);
        lemma_le_at_step(b, at + 4, 4);
        lemma_le_at_step(b, at + 5, 3);
        lemma_le_at_step(b, at + 6, 2);
        lemma_le_at_step(b, at + 7, 1);
        lemma_le_at_step(b, at + 8, 0);
    }
}

proof fn lemma_le_at_step(b: Seq<u8>, at: int, k: int)
    requires
        0 <= at,
        0 <= k,
        at + k <= b.len(),
    ensures
        k == 0 ==> le_at(b, at, k) == 0,
        k > 0 ==> le_at(b, at, k) == b[at] + 256 * le_at(b, at + 1, k - 1),
{
    if k > 0 {
        assert(b.subrange(at, at + k).drop_first() =~= b.subrange(at + 1, at + 1 + (k - 1)));
    }
}

/// The bytes of a number are its digits to the base 256, the lowest first: taking one more byte
/// adds the next digit and leaves those before.
pub proof fn bytes_are_digits(n: nat, k: nat)
    ensures
        le_bytes(n, k).len() == k,
        k > 0 ==> le_bytes(n, k)[0] == n % 256,
        k > 1 ==> le_bytes(n, k)[1] == (n / 256) % 256,
        k > 2 ==> le_bytes(n, k)[2] == (n / 65536) % 256,
        k > 3 ==> le_bytes(n, k)[3] == (n / 16777216) % 256,
        forall|i: int|
            4 <= i < k ==> #[trigger] le_bytes(n, k)[i] == le_bytes(
                n / 4294967296,
                (k - 4) as nat,
            )[i - 4],
{
    lemma_le_bytes_len(n, k);
    reveal_with_fuel(le_bytes, 5);
    assert(n / 256 / 256 == n / 65536);
    assert(n / 256 / 256 / 256 == n / 16777216);
    assert(n / 256 / 256 / 256 / 256 == n / 4294967296);
}

/// A signed number and the unsigned one with its bits differ by a multiple of the range, and the
/// one with the bits of the other is that other again.
pub proof fn bits_keep_the_number(v: int, n: nat)
    ensures
        -0x8000_0000 <= v < 0x8000_0000 ==> {
            &&& unsigned_of(v, 0x1_0000_0000) < 0x1_0000_0000
            &&& unsigned_of(v, 0x1_0000_0000) == v || unsigned_of(v, 0x1_0000_0000) == v
                + 0x1_0000_0000
            &&& signed_of(unsigned_of(v, 0x1_0000_0000), 0x1_0000_0000) == v
        },
        -0x8000_0000_0000_0000 <= v < 0x8000_0000_0000_0000 ==> {
            &&& unsigned_of(v, 0x1_0000_0000_0000_0000) < 0x1_0000_0000_0000_0000
            &&& unsigned_of(v, 0x1_0000_0000_0000_0000) == v || unsigned_of(
                v,
                0x1_0000_0000_0000_0000,
            ) == v + 0x1_0000_0000_0000_0000
            &&& signed_of(
                unsigned_of(v, 0x1_0000_0000_0000_0000),
                0x1_0000_0000_0000_0000,
            ) == v
        },
        n < 0x1_0000_0000 ==> {
            &&& -0x8000_0000 <= signed_of(n, 0x1_0000_0000) < 0x8000_0000
            &&& signed_of(n, 0x1_0000_0000) == n || signed_of(n, 0x1_0000_0000) == n - 0x1_0000_0000
        },
        n < 0x1_0000_0000_0000_0000 ==> {
            &&& -0x8000_0000_0000_0000 <= signed_of(n, 0x1_0000_0000_0000_0000)
                < 0x8000_0000_0000_0000
            &&& signed_of(n, 0x1_0000_0000_0000_0000) == n || signed_of(
                n,
                0x1_0000_0000_0000_0000,
            ) == n - 0x1_0000_0000_0000_0000
        },
{
}

} // verus!
