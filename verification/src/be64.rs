//! Numbers of 64 bits as eight bytes, the first byte weighing most, and lists of such
//! numbers written one after the other.

use vstd::prelude::*;

verus! {

/// The number that bytes stand for when the first byte weighs most.
pub open spec fn be_value(b: Seq<u8>) -> nat
    decreases b.len(),
{
    if b.len() == 0 {
        0
    } else {
        be_value(b.drop_last()) * 256 + b.last() as nat
    }
}

/// The last `n` bytes of a number, the first of them weighing most.
pub open spec fn be_bytes(x: nat, n: nat) -> Seq<u8>
    decreases n,
{
    if n == 0 {
        Seq::empty()
    } else {
        be_bytes(x / 256, (n - 1) as nat).push((x % 256) as u8)
    }
}

/// 256 to the power of `n`.
pub open spec fn pow256(n: nat) -> nat
    decreases n,
{
    if n == 0 {
        1
    } else {
        256 * pow256((n - 1) as nat)
    }
}

/// The eight bytes of a number.
pub open spec fn u64_bytes(x: u64) -> Seq<u8> {
    be_bytes(x as nat, 8)
}

/// The number that eight bytes stand for.
pub open spec fn u64_of_bytes(b: Seq<u8>) -> u64 {
    be_value(b) as u64
}

/// The bytes of a list of numbers, eight for each.
pub open spec fn u64s_bytes(xs: Seq<u64>) -> Seq<u8>
    decreases xs.len(),
{
    if xs.len() == 0 {
        Seq::empty()
    } else {
        u64s_bytes(xs.drop_last()) + u64_bytes(xs.last())
    }
}

/// The numbers that the first `n` groups of eight bytes stand for.
pub open spec fn u64s_upto(b: Seq<u8>, n: int) -> Seq<u64>
    decreases n,
{
    if n <= 0 {
        Seq::empty()
    } else {
        u64s_upto(b, n - 1).push(u64_of_bytes(b.subrange(8 * (n - 1), 8 * n)))
    }
}

/// The numbers that a whole number of groups of eight bytes stand for.
pub open spec fn u64s_of_bytes(b: Seq<u8>) -> Seq<u64> {
    u64s_upto(b, b.len() as int / 8)
}

/// A number is written in as many bytes as were asked for.
pub proof fn lemma_be_bytes_len(x: nat, n: nat)
    ensures
        be_bytes(x, n).len() == n,
    decreases n,
{
    if n > 0 {
        lemma_be_bytes_len(x / 256, (n - 1) as nat);
    }
}

/// What `n` bytes stand for is below 256 to the power of `n`.
pub proof fn lemma_be_value_bound(b: Seq<u8>)
    ensures
        be_value(b) < pow256(b.len()),
    decreases b.len(),
{
    if b.len() > 0 {
        lemma_be_value_bound(b.drop_last());
    }
}

/// A number below 256 to the power of `n` comes back unchanged from its `n` bytes.
pub proof fn lemma_be_value_of_bytes(x: nat, n: nat)
    requires
        x < pow256(n),
    ensures
        be_value(be_bytes(x, n)) == x,
    decreases n,
{
    if n > 0 {
        let rest = be_bytes(x / 256, (n - 1) as nat);
        lemma_be_value_of_bytes(x / 256, (n - 1) as nat);
        assert(be_bytes(x, n).drop_last() =~= rest);
    }
}

/// Bytes come back unchanged from the number that they stand for.
pub proof fn lemma_be_bytes_of_value(b: Seq<u8>)
    ensures
        be_bytes(be_value(b), b.len()) == b,
    decreases b.len(),
{
    if b.len() > 0 {
        lemma_be_bytes_of_value(b.drop_last());
        let v = be_value(b.drop_last());
        assert((v * 256 + b.last() as nat) / 256 == v);
        assert((v * 256 + b.last() as nat) % 256 == b.last() as nat);
        assert(be_bytes(be_value(b), b.len()) =~= b);
    } else {
        assert(be_bytes(be_value(b), b.len()) =~= b);
    }
}

/// Eight bytes reach as far as a number of 64 bits does.
pub proof fn lemma_pow256_8()
    ensures
        pow256(8) == 0x1_0000_0000_0000_0000,
{
    reveal_with_fuel(pow256, 9);
}

/// A number comes back unchanged from its eight bytes.
pub proof fn lemma_u64_round_trip(x: u64)
    ensures
        u64_of_bytes(u64_bytes(x)) == x,
        u64_bytes(x).len() == 8,
{
    lemma_pow256_8();
    lemma_be_value_of_bytes(x as nat, 8);
    lemma_be_bytes_len(x as nat, 8);
}

/// Eight bytes come back unchanged from the number that they stand for.
pub proof fn lemma_bytes_round_trip(b: Seq<u8>)
    requires
        b.len() == 8,
    ensures
        u64_bytes(u64_of_bytes(b)) == b,
        be_value(b) <= u64::MAX,
{
    lemma_pow256_8();
    lemma_be_value_bound(b);
    lemma_be_bytes_of_value(b);
}

/// The bytes of a list are eight times as many as its numbers.
pub proof fn lemma_u64s_bytes_len(xs: Seq<u64>)
    ensures
        u64s_bytes(xs).len() == 8 * xs.len(),
    decreases xs.len(),
{
    if xs.len() > 0 {
        lemma_u64s_bytes_len(xs.drop_last());
        lemma_be_bytes_len(xs.last() as nat, 8);
    }
}

/// Reading `n` groups gives `n` numbers, and bytes behind these groups do not matter.
pub proof fn lemma_u64s_upto_prefix(b: Seq<u8>, c: Seq<u8>, n: int)
    requires
        0 <= n,
        8 * n <= b.len(),
        8 * n <= c.len(),
        b.subrange(0, 8 * n) == c.subrange(0, 8 * n),
    ensures
        u64s_upto(b, n) == u64s_upto(c, n),
        u64s_upto(b, n).len() == n,
    decreases n,
{
    if n > 0 {
        assert(b.subrange(0, 8 * (n - 1)) =~= b.subrange(0, 8 * n).subrange(0, 8 * (n - 1)));
        assert(c.subrange(0, 8 * (n - 1)) =~= c.subrange(0, 8 * n).subrange(0, 8 * (n - 1)));
        lemma_u64s_upto_prefix(b, c, n - 1);
        assert(b.subrange(8 * (n - 1), 8 * n) =~= b.subrange(0, 8 * n).subrange(
            8 * (n - 1),
            8 * n,
        ));
        assert(c.subrange(8 * (n - 1), 8 * n) =~= c.subrange(0, 8 * n).subrange(
            8 * (n - 1),
            8 * n,
        ));
    }
}

/// A list of numbers comes back unchanged from its bytes.
pub proof fn lemma_u64s_round_trip(xs: Seq<u64>)
    ensures
        u64s_of_bytes(u64s_bytes(xs)) == xs,
        u64s_bytes(xs).len() == 8 * xs.len(),
    decreases xs.len(),
{
    lemma_u64s_bytes_len(xs);
    if xs.len() > 0 {
        let n = xs.len() as int;
        let shorter = xs.drop_last();
        lemma_u64s_round_trip(shorter);
        let b = u64s_bytes(xs);
        let c = u64s_bytes(shorter);
        assert(b.subrange(0, 8 * (n - 1)) =~= c.subrange(0, 8 * (n - 1)));
        lemma_u64s_upto_prefix(b, c, n - 1);
        assert(b.subrange(8 * (n - 1), 8 * n) =~= u64_bytes(xs.last()));
        lemma_u64_round_trip(xs.last());
        assert(u64s_upto(b, n) =~= xs);
    } else {
        assert(u64s_of_bytes(u64s_bytes(xs)) =~= xs);
    }
}

/// Writes the eight bytes of `x` at the end of `out`.
pub fn push_u64(out: &mut Vec<u8>, x: u64)
    ensures
        final(out)@ == old(out)@ + u64_bytes(x),
{
    let x1 = x / 256;
    let x2 = x1 / 256;
    let x3 = x2 / 256;
    let x4 = x3 / 256;
    let x5 = x4 / 256;
    let x6 = x5 / 256;
    let x7 = x6 / 256;
    out.push((x7 % 256) as u8);
    out.push((x6 % 256) as u8);
    out.push((x5 % 256) as u8);
    out.push((x4 % 256) as u8);
    out.push((x3 % 256) as u8);
    out.push((x2 % 256) as u8);
    out.push((x1 % 256) as u8);
    out.push((x % 256) as u8);
    proof {
        reveal_with_fuel(be_bytes, 9);
        assert(out@ =~= old(out)@ + u64_bytes(x));
    }
}

/// Reads the number that the eight bytes from place `at` stand for.
pub fn read_u64(bytes: &[u8], at: usize) -> (x: u64)
    requires
        at + 8 <= bytes@.len(),
    ensures
        x == u64_of_bytes(bytes@.subrange(at as int, at + 8)),
        x == be_value(bytes@.subrange(at as int, at + 8)),
{
    let mut x: u64 = 0;
    let mut i: usize = 0;
    let n = bytes.len();
    proof {
        lemma_pow256_8();
        reveal_with_fuel(pow256, 9);
    }
    while i < 8
        invariant
            i <= 8,
            at + 8 <= bytes@.len(),
            bytes@.len() == n,
            x == be_value(bytes@.subrange(at as int, at + i)),
            x < pow256(i as nat),
            pow256(8) == 0x1_0000_0000_0000_0000,
        decreases 8 - i,
    {
        proof {
            reveal_with_fuel(pow256, 9);
            assert(bytes@.subrange(at as int, at + i + 1).drop_last() =~= bytes@.subrange(
                at as int,
                at + i,
            ));
            assert(pow256((i + 1) as nat) == 256 * pow256(i as nat));
            assert(pow256((i + 1) as nat) <= pow256(8)) by {
                reveal_with_fuel(pow256, 9);
            }
        }
        x = x * 256 + bytes[at + i] as u64;
        i = i + 1;
    }
    x
}

/// Writes a list of numbers, eight bytes for each.
pub fn write_u64s(xs: &[u64]) -> (out: Vec<u8>)
    ensures
        out@ == u64s_bytes(xs@),
        u64s_of_bytes(out@) == xs@,
{
    let mut out: Vec<u8> = Vec::new();
    let mut i: usize = 0;
    while i < xs.len()
        invariant
            i <= xs.len(),
            out@ == u64s_bytes(xs@.subrange(0, i as int)),
        decreases xs.len() - i,
    {
        assert(xs@.subrange(0, i + 1).drop_last() =~= xs@.subrange(0, i as int));
        push_u64(&mut out, xs[i]);
        i = i + 1;
    }
    proof {
        assert(xs@.subrange(0, xs@.len() as int) =~= xs@);
        lemma_u64s_round_trip(xs@);
    }
    out
}

/// Reads a list of numbers from bytes that come in groups of eight. Bytes that do not are
/// refused.
pub fn read_u64s(bytes: &[u8]) -> (r: Option<Vec<u64>>)
    ensures
        match r {
            Some(xs) => bytes@.len() % 8 == 0 && xs@ == u64s_of_bytes(bytes@) && u64s_bytes(xs@)
                == bytes@,
            None => bytes@.len() % 8 != 0,
        },
{
    if bytes.len() % 8 != 0 {
        return None;
    }
    let n = bytes.len() / 8;
    let mut xs: Vec<u64> = Vec::new();
    let mut i: usize = 0;
    while i < n
        invariant
            i <= n,
            n * 8 == bytes@.len(),
            n * 8 <= usize::MAX,
            xs@ == u64s_upto(bytes@, i as int),
            u64s_bytes(xs@) == bytes@.subrange(0, 8 * i),
        decreases n - i,
    {
        let x = read_u64(bytes, 8 * i);
        proof {
            let group = bytes@.subrange(8 * i, 8 * i + 8);
            lemma_bytes_round_trip(group);
            assert(xs@.push(x).drop_last() =~= xs@);
            assert(bytes@.subrange(0, 8 * i) + group =~= bytes@.subrange(0, 8 * (i + 1)));
        }
        xs.push(x);
        i = i + 1;
    }
    assert(bytes@.subrange(0, 8 * n) =~= bytes@);
    Some(xs)
}

} // verus!
