//! Little-endian integers in bytes.

use vstd::prelude::*;

verus! {

/// The number that bytes write, the lowest first.
pub open spec fn le_value(b: Seq<u8>) -> nat
    decreases b.len(),
{
    if b.len() == 0 {
        0
    } else {
        b[0] as nat + 256 * le_value(b.drop_first())
    }
}

/// `v` in `n` bytes, the lowest first.
pub open spec fn le_bytes(v: nat, n: nat) -> Seq<u8>
    decreases n,
{
    if n == 0 {
        Seq::empty()
    } else {
        seq![(v % 256) as u8] + le_bytes(v / 256, (n - 1) as nat)
    }
}

/// 256 to the power of `n`.
pub open spec fn pow256(n: nat) -> nat
    decreases n,
{
    if n == 0 {
        1
    } else {
        256 * pow256((n - 1) as nat)
    }
}

/// Up to eight bytes write a 64-bit number.
pub proof fn pow256_bound(n: nat)
    requires
        n <= 8,
    ensures
        1 <= pow256(n) <= 0x1_0000_0000_0000_0000,
{
    reveal_with_fuel(pow256, 9);
}

/// `n` bytes write a number below 256 to the power of `n`.
pub proof fn le_value_bound(b: Seq<u8>)
    ensures
        le_value(b) < pow256(b.len()),
    decreases b.len(),
{
    if b.len() > 0 {
        le_value_bound(b.drop_first());
    }
}

/// What was written is read back.
pub proof fn le_round_trip(v: nat, n: nat)
    requires
        v < pow256(n),
    ensures
        le_value(le_bytes(v, n)) == v,
        le_bytes(v, n).len() == n,
    decreases n,
{
    if n > 0 {
        let m = (n - 1) as nat;
        le_round_trip(v / 256, m);
        let b = le_bytes(v, n);
        assert(b.drop_first() =~= le_bytes(v / 256, m));
    }
}

/// What was read is written back.
pub proof fn le_read_back(b: Seq<u8>)
    ensures
        le_bytes(le_value(b), b.len()) == b,
    decreases b.len(),
{
    if b.len() > 0 {
        let t = b.drop_first();
        le_read_back(t);
        let v = le_value(b);
        assert(v % 256 == b[0] as nat);
        assert(v / 256 == le_value(t));
        assert(le_bytes(v, b.len()) =~= b);
    } else {
        assert(le_bytes(le_value(b), b.len()) =~= b);
    }
}

/// The number in the `n` bytes at `at`.
pub fn read_le(b: &Vec<u8>, at: usize, n: usize) -> (r: u64)
    requires
        n <= 8,
        at + n <= b.len(),
    ensures
        r == le_value(b@.subrange(at as int, at + n)),
    decreases n,
{
    let ghost s = b@.subrange(at as int, at + n);
    if n == 0 {
        return 0;
    }
    let rest = read_le(b, at + 1, n - 1);
    proof {
        assert(s.drop_first() =~= b@.subrange(at + 1, at + n));
        le_value_bound(s);
        assert(s.len() == n);
        pow256_bound(n as nat);
    }
    b[at] as u64 + 256 * rest
}

/// Append `v` in `n` bytes.
pub fn put_le(out: &mut Vec<u8>, v: u64, n: usize)
    ensures
        final(out)@ == old(out)@ + le_bytes(v as nat, n as nat),
    decreases n,
{
    let ghost before = out@;
    if n == 0 {
        proof {
            assert(out@ =~= before + le_bytes(v as nat, 0));
        }
        return ;
    }
    out.push((v % 256) as u8);
    put_le(out, v / 256, n - 1);
    proof {
        let rest = le_bytes((v / 256) as nat, (n - 1) as nat);
        assert(out@ =~= before + (seq![(v as nat % 256) as u8] + rest));
    }
}

/// The numbers in consecutive groups of `n` bytes.
pub open spec fn le_values(b: Seq<u8>, n: int) -> Seq<nat>
    decreases b.len(),
{
    if n <= 0 || b.len() < n {
        Seq::empty()
    } else {
        seq![le_value(b.take(n))] + le_values(b.skip(n), n)
    }
}

/// There is a number for each whole group.
pub proof fn le_values_len(b: Seq<u8>, n: int)
    requires
        n > 0,
    ensures
        le_values(b, n).len() == b.len() / n as nat,
    decreases b.len(),
{
    if b.len() >= n {
        le_values_len(b.skip(n), n);
        assert((b.len() - n) / n + 1 == b.len() as int / n) by (nonlinear_arith)
            requires
                n > 0,
        ;
    } else {
        assert(b.len() as int / n == 0) by (nonlinear_arith)
            requires
                n > 0,
                0 <= b.len() < n,
        ;
    }
}

/// Rows of numbers as sequences.
pub open spec fn row_views(v: Seq<Vec<u32>>) -> Seq<Seq<u32>> {
    Seq::new(v.len(), |i: int| v[i]@)
}

/// Numbers as 32-bit ones.
pub open spec fn as_u32(v: Seq<nat>) -> Seq<u32> {
    Seq::new(v.len(), |i: int| v[i] as u32)
}

/// Numbers as 64-bit ones.
pub open spec fn as_u64(v: Seq<nat>) -> Seq<u64> {
    Seq::new(v.len(), |i: int| v[i] as u64)
}

/// The numbers in consecutive groups of `n` bytes; bytes behind the last whole
/// group are left out.
pub fn read_all(b: &Vec<u8>, n: usize) -> (r: Vec<u64>)
    requires
        1 <= n <= 8,
    ensures
        r@ == as_u64(le_values(b@, n as int)),
        forall|i: int| 0 <= i < r.len() ==> (#[trigger] r@[i]) < pow256(n as nat),
{
    let mut out: Vec<u64> = Vec::new();
    let mut at: usize = 0;
    let ghost all = as_u64(le_values(b@, n as int));
    proof {
        assert(b@.skip(0) =~= b@);
        assert(out@ + all =~= all);
    }
    while n <= b.len() - at
        invariant
            1 <= n <= 8,
            at <= b.len(),
            out@ + as_u64(le_values(b@.skip(at as int), n as int)) == all,
            forall|i: int| 0 <= i < out.len() ==> (#[trigger] out@[i]) < pow256(n as nat),
        decreases b.len() - at,
    {
        let ghost rest = b@.skip(at as int);
        let ghost before = out@;
        let v = read_le(b, at, n);
        proof {
            assert(b@.subrange(at as int, at + n) =~= rest.take(n as int));
            le_value_bound(rest.take(n as int));
            let tail = le_values(rest.skip(n as int), n as int);
            assert(rest.skip(n as int) =~= b@.skip(at + n));
            assert(as_u64(le_values(rest, n as int)) =~= seq![v] + as_u64(tail));
            assert(before + (seq![v] + as_u64(tail)) =~= before.push(v) + as_u64(tail));
        }
        out.push(v);
        at = at + n;
    }
    proof {
        assert(as_u64(le_values(b@.skip(at as int), n as int)) =~= Seq::<u64>::empty());
        assert(out@ + Seq::<u64>::empty() =~= out@);
    }
    out
}

/// The numbers, each in `n` bytes.
pub open spec fn written_all(v: Seq<u64>, n: nat, k: int) -> Seq<u8>
    decreases k,
{
    if k <= 0 {
        Seq::empty()
    } else {
        written_all(v, n, k - 1) + le_bytes(v[k - 1] as nat, n)
    }
}

/// The numbers, each in `n` bytes.
pub fn write_all(v: &Vec<u64>, n: usize) -> (r: Vec<u8>)
    ensures
        r@ == written_all(v@, n as nat, v.len() as int),
{
    let mut out: Vec<u8> = Vec::new();
    let mut i: usize = 0;
    while i < v.len()
        invariant
            i <= v.len(),
            out@ == written_all(v@, n as nat, i as int),
        decreases v.len() - i,
    {
        put_le(&mut out, v[i], n);
        i = i + 1;
    }
    out
}

/// Reading numbers that were written in order gives them back.
pub proof fn write_all_reads_back(v: Seq<u64>, n: nat, k: int)
    requires
        1 <= n <= 8,
        0 <= k <= v.len(),
        forall|i: int| 0 <= i < v.len() ==> (#[trigger] v[i]) < pow256(n),
    ensures
        as_u64(le_values(written_all(v, n, k), n as int)) == v.take(k),
        written_all(v, n, k).len() == k * n,
    decreases k,
{
    if k <= 0 {
        assert(as_u64(le_values(written_all(v, n, k), n as int)) =~= v.take(k));
        assert(k * n == 0) by (nonlinear_arith)
            requires
                k == 0,
        ;
    } else {
        write_all_reads_back(v, n, k - 1);
        let a = written_all(v, n, k - 1);
        let last = le_bytes(v[k - 1] as nat, n);
        le_round_trip(v[k - 1] as nat, n);
        assert((k - 1) * n + n == k * n) by (nonlinear_arith);
        assert(a.len() == (k - 1) * n);
        read_appends(a, last, n as int, k - 1);
        assert(as_u64(le_values(a + last, n as int)) =~= v.take(k)) by {
            assert(as_u64(le_values(a + last, n as int)) =~= as_u64(le_values(a, n as int)).push(
                v[k - 1],
            ));
            assert(v.take(k) =~= v.take(k - 1).push(v[k - 1]));
        }
    }
}

/// A whole group behind whole groups is read behind them.
proof fn read_appends(a: Seq<u8>, last: Seq<u8>, n: int, k: int)
    requires
        n > 0,
        k >= 0,
        a.len() == k * n,
        last.len() == n,
    ensures
        le_values(a + last, n) == le_values(a, n).push(le_value(last)),
    decreases k,
{
    if k == 0 {
        assert(a.len() == 0) by (nonlinear_arith)
            requires
                a.len() == k * n,
                k == 0,
        ;
        assert(a + last =~= last);
        assert(last.take(n) =~= last);
        assert(last.skip(n).len() == 0);
        assert(le_values(last.skip(n), n) =~= Seq::<nat>::empty());
        assert(le_values(a, n) =~= Seq::<nat>::empty());
        assert(le_values(a + last, n) =~= le_values(a, n).push(le_value(last)));
    } else {
        assert(k * n >= n && (k - 1) * n == k * n - n) by (nonlinear_arith)
            requires
                k >= 1,
                n > 0,
        ;
        read_appends(a.skip(n), last, n, k - 1);
        assert((a + last).take(n) =~= a.take(n));
        assert((a + last).skip(n) =~= a.skip(n) + last);
        assert(le_values(a + last, n) =~= le_values(a, n).push(le_value(last)));
    }
}

/// Each number read from `n` bytes is one that `n` bytes hold.
pub proof fn le_values_bound(b: Seq<u8>, n: int, k: int)
    requires
        0 < n,
        0 <= k < le_values(b, n).len(),
    ensures
        le_values(b, n)[k] < pow256(n as nat),
    decreases b.len(),
{
    le_value_bound(b.take(n));
    if k > 0 {
        le_values_bound(b.skip(n), n, k - 1);
    }
}

/// The first byte of a number is its lowest, and the last its highest.
pub proof fn the_first_byte_is_the_lowest(a: u8, b: u8, rest: Seq<u8>)
    ensures
        le_value(seq![a]) == a,
        le_value(seq![a, b]) == a + 256 * b,
        le_value(seq![a] + rest) == a + 256 * le_value(rest),
{
    reveal_with_fuel(le_value, 3);
    assert((seq![a] + rest).drop_first() =~= rest);
    assert(seq![a].drop_first() =~= Seq::empty());
    assert(seq![a, b].drop_first() =~= seq![b]);
    assert(seq![b].drop_first() =~= Seq::empty());
}

/// Number `k` of a buffer is that of its own bytes.
pub proof fn numbers_are_read_from_their_own_bytes(b: Seq<u8>, n: int, k: int)
    requires
        n > 0,
        0 <= k,
        (k + 1) * n <= b.len(),
    ensures
        k < le_values(b, n).len(),
        le_values(b, n)[k] == le_value(b.subrange(k * n, k * n + n)),
    decreases k,
{
    assert((k + 1) * n == k * n + n) by (nonlinear_arith);
    assert(k * n >= 0) by (nonlinear_arith)
        requires
            0 <= k,
            n > 0,
    ;
    if k == 0 {
        assert(b.take(n) =~= b.subrange(0, n));
        assert(0 * n == 0);
    } else {
        let c = b.skip(n);
        assert((k - 1 + 1) * n == k * n && (k - 1) * n == k * n - n) by (nonlinear_arith);
        numbers_are_read_from_their_own_bytes(c, n, k - 1);
        assert(c.subrange((k - 1) * n, (k - 1) * n + n) =~= b.subrange(k * n, k * n + n));
    }
}

} // verus!
