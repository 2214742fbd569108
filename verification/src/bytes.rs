//! Small verified helpers on byte strings.
use vstd::prelude::*;
use vstd::slice::*;

verus! {

/// `n` zero bytes.
pub open spec fn zeros(n: nat) -> Seq<u8> {
    Seq::new(n, |i: int| 0u8)
}

/// Whether every byte of `s` is zero.
pub open spec fn all_zero(s: Seq<u8>) -> bool {
    forall|i: int| 0 <= i < s.len() ==> s[i] == 0
}

/// `s` without the zero bytes at its end.
pub open spec fn without_trailing_zeros(s: Seq<u8>) -> Seq<u8>
    decreases s.len(),
{
    if s.len() > 0 && s.last() == 0 {
        without_trailing_zeros(s.drop_last())
    } else {
        s
    }
}

/// The four bytes of `x`, the lowest first.
pub open spec fn u32_le(x: u32) -> Seq<u8> {
    seq![
        (x % 0x100) as u8,
        (x / 0x100 % 0x100) as u8,
        (x / 0x1_0000 % 0x100) as u8,
        (x / 0x100_0000) as u8,
    ]
}

/// The number with the four bytes `s`, the lowest first.
pub open spec fn u32_of_le(s: Seq<u8>) -> u32 {
    (s[0] + 0x100 * s[1] + 0x1_0000 * s[2] + 0x100_0000 * s[3]) as u32
}

/// The eight bytes of `x`, the lowest first.
pub open spec fn u64_le(x: u64) -> Seq<u8> {
    u32_le((x % 0x1_0000_0000) as u32) + u32_le((x / 0x1_0000_0000) as u32)
}

/// The number with the eight bytes `s`, the lowest first.
pub open spec fn u64_of_le(s: Seq<u8>) -> u64 {
    (u32_of_le(s.take(4)) + 0x1_0000_0000 * u32_of_le(s.skip(4))) as u64
}

/// The four bytes of the two's complement form of `x`, the lowest first.
pub open spec fn i32_le(x: i32) -> Seq<u8> {
    u32_le(
        if x < 0 {
            (x + 0x1_0000_0000) as u32
        } else {
            x as u32
        },
    )
}

/// The number whose two's complement form has the four bytes `s`, the lowest first.
pub open spec fn i32_of_le(s: Seq<u8>) -> i32 {
    let u = u32_of_le(s);
    if u < 0x8000_0000 {
        u as i32
    } else {
        (u - 0x1_0000_0000) as i32
    }
}

/// Reading the bytes of a `u32` gives it back.
pub proof fn lemma_u32_le_round_trip(x: u32)
    ensures
        u32_le(x).len() == 4,
        u32_of_le(u32_le(x)) == x,
{
    lemma_sum_of_bytes(x);
}

/// Four bytes are those of the `u32` that is read from them.
pub proof fn lemma_u32_of_le_round_trip(s: Seq<u8>)
    requires
        s.len() == 4,
    ensures
        u32_le(u32_of_le(s)) == s,
{
    let x = u32_of_le(s);
    lemma_bytes_of_sum(x, s[0] as u32, s[1] as u32, s[2] as u32, s[3] as u32);
    assert(u32_le(x) =~= s);
}

/// The bytes of a number that was put together from bytes.
proof fn lemma_bytes_of_sum(x: u32, a: u32, b: u32, c: u32, d: u32)
    by (bit_vector)
    requires
        a < 0x100,
        b < 0x100,
        c < 0x100,
        d < 0x100,
        x == a + 0x100 * b + 0x1_0000 * c + 0x100_0000 * d,
    ensures
        x % 0x100 == a,
        x / 0x100 % 0x100 == b,
        x / 0x1_0000 % 0x100 == c,
        x / 0x100_0000 == d,
{
}

/// A number is put together from its bytes.
proof fn lemma_sum_of_bytes(x: u32)
    by (bit_vector)
    ensures
        x == x % 0x100 + 0x100 * (x / 0x100 % 0x100) + 0x1_0000 * (x / 0x1_0000 % 0x100)
            + 0x100_0000 * (x / 0x100_0000),
        x / 0x100_0000 < 0x100,
{
}

/// Reading the bytes of a `u64` gives it back.
pub proof fn lemma_u64_le_round_trip(x: u64)
    ensures
        u64_le(x).len() == 8,
        u64_of_le(u64_le(x)) == x,
{
    let low = (x % 0x1_0000_0000) as u32;
    let high = (x / 0x1_0000_0000) as u32;
    assert(u64_le(x).take(4) =~= u32_le(low));
    assert(u64_le(x).skip(4) =~= u32_le(high));
    lemma_u32_le_round_trip(low);
    lemma_u32_le_round_trip(high);
}

/// The bytes of a `u64`, one by one.
pub proof fn lemma_u64_le_is_low_first(x: u64)
    ensures
        u64_le(x) == seq![
            (x % 0x100) as u8,
            (x / 0x100 % 0x100) as u8,
            (x / 0x1_0000 % 0x100) as u8,
            (x / 0x100_0000 % 0x100) as u8,
            (x / 0x1_0000_0000 % 0x100) as u8,
            (x / 0x100_0000_0000 % 0x100) as u8,
            (x / 0x1_0000_0000_0000 % 0x100) as u8,
            (x / 0x100_0000_0000_0000) as u8,
        ],
{
    let low = (x % 0x1_0000_0000) as u32;
    let high = (x / 0x1_0000_0000) as u32;
    lemma_bytes_of_halves(x, low as u64, high as u64);
}

/// The bytes of a number are the bytes of its halves.
proof fn lemma_bytes_of_halves(x: u64, low: u64, high: u64)
    by (bit_vector)
    requires
        low == x % 0x1_0000_0000,
        high == x / 0x1_0000_0000,
    ensures
        low % 0x100 == x % 0x100,
        low / 0x100 % 0x100 == x / 0x100 % 0x100,
        low / 0x1_0000 % 0x100 == x / 0x1_0000 % 0x100,
        low / 0x100_0000 == x / 0x100_0000 % 0x100,
        high % 0x100 == x / 0x1_0000_0000 % 0x100,
        high / 0x100 % 0x100 == x / 0x100_0000_0000 % 0x100,
        high / 0x1_0000 % 0x100 == x / 0x1_0000_0000_0000 % 0x100,
        high / 0x100_0000 == x / 0x100_0000_0000_0000,
{
}

/// Numbers with the same bytes are the same.
pub proof fn lemma_u64_le_injective(x: u64, y: u64)
    ensures
        u64_le(x).len() == u64_le(y).len() == 8,
        u64_le(x) == u64_le(y) ==> x == y,
{
    lemma_u64_le_round_trip(x);
    lemma_u64_le_round_trip(y);
}

/// Byte strings put together from parts of the same lengths have the same parts where they are the
/// same.
pub proof fn lemma_same_parts(t: Seq<u8>, s1: Seq<u8>, x1: Seq<u8>, s2: Seq<u8>, x2: Seq<u8>)
    requires
        t + s1 + x1 == t + s2 + x2,
        s1.len() == s2.len(),
    ensures
        s1 == s2,
        x1 == x2,
{
    let a = t + s1 + x1;
    let b = t + s2 + x2;
    let from = t.len() as int;
    let to = from + s1.len();
    assert(a.subrange(from, to) =~= s1 && b.subrange(from, to) =~= s2);
    assert(a.skip(to) =~= x1 && b.skip(to) =~= x2);
}

/// The two halves of a `u64` are those that it was put together from.
proof fn lemma_halves(low: u32, high: u32)
    ensures
        ({
            let x = (low + 0x1_0000_0000 * high) as u64;
            x % 0x1_0000_0000 == low && x / 0x1_0000_0000 == high
        }),
{
}

/// Eight bytes are those of the `u64` that is read from them.
pub proof fn lemma_u64_of_le_round_trip(s: Seq<u8>)
    requires
        s.len() == 8,
    ensures
        u64_le(u64_of_le(s)) == s,
{
    let low = u32_of_le(s.take(4));
    let high = u32_of_le(s.skip(4));
    lemma_u32_of_le_round_trip(s.take(4));
    lemma_u32_of_le_round_trip(s.skip(4));
    lemma_halves(low, high);
    assert(u32_le(low) + u32_le(high) =~= s);
}

/// Reading the bytes of an `i32` gives it back.
pub proof fn lemma_i32_le_round_trip(x: i32)
    ensures
        i32_le(x).len() == 4,
        i32_of_le(i32_le(x)) == x,
{
    lemma_u32_le_round_trip(
        if x < 0 {
            (x + 0x1_0000_0000) as u32
        } else {
            x as u32
        },
    );
}

/// Four bytes are those of the `i32` that is read from them.
pub proof fn lemma_i32_of_le_round_trip(s: Seq<u8>)
    requires
        s.len() == 4,
    ensures
        i32_le(i32_of_le(s)) == s,
{
    lemma_u32_of_le_round_trip(s);
}

/// The bytes of `x`, the lowest first.
pub fn u32_to_le(x: u32) -> (out: Vec<u8>)
    ensures
        out@ == u32_le(x),
{
    vec![
        (x % 0x100) as u8,
        (x / 0x100 % 0x100) as u8,
        (x / 0x1_0000 % 0x100) as u8,
        (x / 0x100_0000) as u8,
    ]
}

/// The number with the bytes `s`, the lowest first.
pub fn u32_from_le(s: &[u8]) -> (x: u32)
    requires
        s@.len() == 4,
    ensures
        x == u32_of_le(s@),
{
    s[0] as u32 + 0x100 * (s[1] as u32) + 0x1_0000 * (s[2] as u32) + 0x100_0000 * (s[3] as u32)
}

/// The bytes of `x`, the lowest first.
pub fn u64_to_le(x: u64) -> (out: Vec<u8>)
    ensures
        out@ == u64_le(x),
{
    let mut out: Vec<u8> = u32_to_le((x % 0x1_0000_0000) as u32);
    append_bytes(&mut out, &u32_to_le((x / 0x1_0000_0000) as u32));
    out
}

/// The number with the bytes `s`, the lowest first.
pub fn u64_from_le(s: &[u8]) -> (x: u64)
    requires
        s@.len() == 8,
    ensures
        x == u64_of_le(s@),
{
    let low: u32 = u32_from_le(slice_subrange(s, 0, 4));
    let high: u32 = u32_from_le(slice_subrange(s, 4, 8));
    assert(s@.subrange(0, 4) =~= s@.take(4));
    assert(s@.subrange(4, 8) =~= s@.skip(4));
    low as u64 + 0x1_0000_0000 * (high as u64)
}

/// The bytes of the two's complement form of `x`, the lowest first.
pub fn i32_to_le(x: i32) -> (out: Vec<u8>)
    ensures
        out@ == i32_le(x),
{
    if x < 0 {
        u32_to_le((x as i64 + 0x1_0000_0000) as u32)
    } else {
        u32_to_le(x as u32)
    }
}

/// The number whose two's complement form has the bytes `s`, the lowest first.
pub fn i32_from_le(s: &[u8]) -> (x: i32)
    requires
        s@.len() == 4,
    ensures
        x == i32_of_le(s@),
{
    let u: u32 = u32_from_le(s);
    if u < 0x8000_0000 {
        u as i32
    } else {
        (u as i64 - 0x1_0000_0000) as i32
    }
}

/// Whether two byte strings are equal.
pub fn bytes_equal(a: &[u8], b: &[u8]) -> (r: bool)
    ensures
        r == (a@ == b@),
{
    if a.len() != b.len() {
        return false;
    }
    let mut i: usize = 0;
    while i < a.len()
        invariant
            i <= a@.len(),
            a@.len() == b@.len(),
            forall|j: int| 0 <= j < i ==> a@[j] == b@[j],
        decreases a@.len() - i,
    {
        if a[i] != b[i] {
            return false;
        }
        i += 1;
    }
    assert(a@ =~= b@);
    true
}

/// Whether every byte is zero.
pub fn is_all_zero(s: &[u8]) -> (r: bool)
    ensures
        r == all_zero(s@),
{
    let mut i: usize = 0;
    while i < s.len()
        invariant
            i <= s@.len(),
            forall|j: int| 0 <= j < i ==> s@[j] == 0,
        decreases s@.len() - i,
    {
        if s[i] != 0 {
            return false;
        }
        i += 1;
    }
    true
}

/// Copies `s` without the zero bytes at its end.
pub fn trim_trailing_zeros(s: &[u8]) -> (out: Vec<u8>)
    ensures
        out@ == without_trailing_zeros(s@),
{
    let mut n: usize = s.len();
    assert(s@.take(n as int) =~= s@);
    while n > 0 && s[n - 1] == 0
        invariant
            n <= s@.len(),
            without_trailing_zeros(s@.take(n as int)) == without_trailing_zeros(s@),
        decreases n,
    {
        assert(s@.take(n as int).drop_last() =~= s@.take(n - 1));
        n -= 1;
    }
    proof {
        if n > 0 {
            assert(s@.take(n as int).last() == s@[n - 1]);
        }
    }
    slice_to_vec(slice_subrange(s, 0, n))
}

/// Padding makes no difference to what is left by trimming.
pub proof fn lemma_trim_undoes_padding(s: Seq<u8>, n: nat)
    ensures
        without_trailing_zeros(s + zeros(n)) == without_trailing_zeros(s),
    decreases n,
{
    if n == 0 {
        assert(s + zeros(0) =~= s);
    } else {
        assert((s + zeros(n)).drop_last() =~= s + zeros((n - 1) as nat));
        lemma_trim_undoes_padding(s, (n - 1) as nat);
    }
}

/// What trimming leaves does not end in a zero byte.
pub proof fn lemma_trimmed_ends(s: Seq<u8>)
    ensures
        without_trailing_zeros(s).len() == 0 || without_trailing_zeros(s).last() != 0,
    decreases s.len(),
{
    if s.len() > 0 && s.last() == 0 {
        lemma_trimmed_ends(s.drop_last());
    }
}

/// What trimming takes off is zero bytes: as many of them put back give the whole again.
pub proof fn lemma_padding_undoes_trim(s: Seq<u8>)
    ensures
        without_trailing_zeros(s).len() <= s.len(),
        without_trailing_zeros(s) + zeros((s.len() - without_trailing_zeros(s).len()) as nat) == s,
    decreases s.len(),
{
    let kept = without_trailing_zeros(s);
    if s.len() > 0 && s.last() == 0 {
        lemma_padding_undoes_trim(s.drop_last());
        assert(s =~= s.drop_last().push(0));
    }
    assert(kept + zeros((s.len() - kept.len()) as nat) =~= s);
}

/// Appends zero bytes until `v` is `len` bytes long.
pub fn pad_zeros(v: &mut Vec<u8>, len: usize)
    requires
        old(v)@.len() <= len,
    ensures
        final(v)@ == old(v)@ + zeros((len - old(v)@.len()) as nat),
        final(v)@.len() == len,
{
    let ghost start = v@;
    while v.len() < len
        invariant
            start.len() <= v@.len() <= len,
            v@ == start + zeros((v@.len() - start.len()) as nat),
        decreases len - v@.len(),
    {
        let ghost before = v@;
        v.push(0);
        assert(v@ =~= start + zeros((v@.len() - start.len()) as nat));
    }
}

/// Appends all of `s` to `v`.
pub fn append_bytes(v: &mut Vec<u8>, s: &[u8])
    ensures
        final(v)@ == old(v)@ + s@,
{
    let ghost start = v@;
    v.extend_from_slice(s);
    assert(v@ =~= start + s@);
}

/// The bytes of `s` as an array.
pub fn to_array<const N: usize>(s: &[u8]) -> (a: [u8; N])
    requires
        s@.len() == N,
    ensures
        a@ == s@,
{
    let mut a: [u8; N] = vstd::array::array_fill_for_copy_types(0u8);
    let mut i: usize = 0;
    while i < N
        invariant
            i <= N,
            s@.len() == N,
            forall|j: int| 0 <= j < i ==> a@[j] == s@[j],
        decreases N - i,
    {
        a[i] = s[i];
        i += 1;
    }
    assert(a@ =~= s@);
    a
}

} // verus!
