//! Scores and their order.
//!
//! A score is carried as the bits of a single-precision number. Its total
//! order is that of `f32::total_cmp`: by sign, then by magnitude.

use vstd::prelude::*;

verus! {

/// The place of a score in the total order.
pub open spec fn order_key(bits: u32) -> int {
    if bits >= 0x8000_0000 {
        0xffff_ffff - bits
    } else {
        bits + 0x8000_0000
    }
}

/// The place of a score in the total order, as a machine integer.
pub fn key_of(bits: u32) -> (r: u32)
    ensures
        r == order_key(bits),
{
    if bits >= 0x8000_0000 {
        0xffff_ffffu32 - bits
    } else {
        bits + 0x8000_0000u32
    }
}

/// Whether the bits are those of no number.
pub open spec fn is_nan(bits: u32) -> bool {
    (bits as int) % 0x8000_0000 > 0x7f80_0000
}

/// Whether the bits are those of a finite number.
pub open spec fn is_finite(bits: u32) -> bool {
    (bits as int) % 0x8000_0000 < 0x7f80_0000
}

/// Where a number that is no NaN stands among the numbers: both zeros at 0.
pub open spec fn magnitude(bits: u32) -> int {
    if bits >= 0x8000_0000 {
        0x8000_0000 - bits
    } else {
        bits as int
    }
}

/// Whether `a > b` as single-precision numbers; never for a NaN.
pub open spec fn greater(a: u32, b: u32) -> bool {
    !is_nan(a) && !is_nan(b) && magnitude(a) > magnitude(b)
}

/// `a > b` on the bits of two single-precision numbers.
pub fn greater_of(a: u32, b: u32) -> (r: bool)
    ensures
        r == greater(a, b),
{
    if a % 0x8000_0000 > 0x7f80_0000 || b % 0x8000_0000 > 0x7f80_0000 {
        return false;
    }
    let x: i64 = if a >= 0x8000_0000 {
        0x8000_0000i64 - a as i64
    } else {
        a as i64
    };
    let y: i64 = if b >= 0x8000_0000 {
        0x8000_0000i64 - b as i64
    } else {
        b as i64
    };
    x > y
}

/// Whether `a == b` as single-precision numbers; never for a NaN, and for both zeros.
pub open spec fn equal(a: u32, b: u32) -> bool {
    !is_nan(a) && !is_nan(b) && magnitude(a) == magnitude(b)
}

/// `a == b` on the bits of two single-precision numbers.
pub fn equal_of(a: u32, b: u32) -> (r: bool)
    ensures
        r == equal(a, b),
{
    if a % 0x8000_0000 > 0x7f80_0000 || b % 0x8000_0000 > 0x7f80_0000 {
        return false;
    }
    a == b || (a % 0x8000_0000 == 0 && b % 0x8000_0000 == 0)
}

/// `f32::is_finite` on the bits.
pub fn is_finite_of(bits: u32) -> (r: bool)
    ensures
        r == is_finite(bits),
{
    bits % 0x8000_0000 < 0x7f80_0000
}

/// Whether index `a` ranks before index `b`: the higher score first, of equal ones the lower index.
pub open spec fn ranks_before(scores: Seq<u32>, a: int, b: int) -> bool {
    order_key(scores[a]) > order_key(scores[b]) || (order_key(scores[a]) == order_key(scores[b]) && a
        < b)
}

/// Whether `order` lists every index of `scores` once, best first.
pub open spec fn is_ranking(scores: Seq<u32>, order: Seq<usize>) -> bool {
    &&& order.len() == scores.len()
    &&& forall|i: int| 0 <= i < order.len() ==> (#[trigger] order[i]) < scores.len()
    &&& forall|i: int, j: int|
        0 <= i < j < order.len() ==> ranks_before(scores, #[trigger] order[i] as int, #[trigger] order[j] as int)
}

/// Whether `order` lists the indices below `n` once, best first.
pub open spec fn ranks_first(scores: Seq<u32>, order: Seq<usize>, n: int) -> bool {
    &&& order.len() == n
    &&& n <= scores.len()
    &&& forall|i: int| 0 <= i < order.len() ==> (#[trigger] order[i]) < n
    &&& forall|i: int, j: int|
        0 <= i < j < order.len() ==> ranks_before(scores, #[trigger] order[i] as int, #[trigger] order[j] as int)
}

/// The indices of the scores, best first; of equal scores the lower index first.
pub fn ranking(scores: &Vec<u32>) -> (r: Vec<usize>)
    ensures
        is_ranking(scores@, r@),
{
    let mut order: Vec<usize> = Vec::new();
    let mut n: usize = 0;
    while n < scores.len()
        invariant
            n <= scores.len(),
            ranks_first(scores@, order@, n as int),
        decreases scores.len() - n,
    {
        let k = key_of(scores[n]);
        let mut at: usize = order.len();
        while at > 0 && key_of(scores[order[at - 1]]) < k
            invariant
                n < scores.len(),
                at <= order.len(),
                k == order_key(scores@[n as int]),
                ranks_first(scores@, order@, n as int),
                forall|i: int|
                    at <= i < order.len() ==> ranks_before(scores@, n as int, #[trigger] order@[i] as int),
            decreases at,
        {
            at = at - 1;
        }
        let ghost before = order@;
        order.insert(at, n);
        proof {
            assert forall|i: int, j: int| 0 <= i < j < order.len() implies ranks_before(
                scores@,
                #[trigger] order@[i] as int,
                #[trigger] order@[j] as int,
            ) by {
                if i < at {
                    assert(order@[i] == before[i]);
                    assert(ranks_before(scores@, before[i] as int, n as int)) by {
                        if i < at - 1 {
                            assert(ranks_before(scores@, before[i] as int, before[at - 1] as int));
                        }
                    }
                }
                if j > at {
                    assert(order@[j] == before[j - 1]);
                }
                if i > at {
                    assert(order@[i] == before[i - 1]);
                }
                if j < at {
                    assert(order@[j] == before[j]);
                }
            }
            assert forall|i: int| 0 <= i < order.len() implies (#[trigger] order@[i]) < n + 1 by {
                if i < at {
                    assert(order@[i] == before[i]);
                } else if i > at {
                    assert(order@[i] == before[i - 1]);
                }
            }
        }
        n = n + 1;
    }
    order
}

/// Two rankings of the same scores are the same: the order is fixed by the scores.
pub proof fn ranking_is_unique(scores: Seq<u32>, a: Seq<usize>, b: Seq<usize>)
    requires
        is_ranking(scores, a),
        is_ranking(scores, b),
    ensures
        a == b,
{
    ranking_lists_every_index(scores, a);
    ranking_lists_every_index(scores, b);
    assert forall|n: nat| n <= a.len() implies a.take(n as int) == b.take(n as int) by {
        same_prefix(scores, a, b, n);
    }
    assert(a.take(a.len() as int) =~= a);
    assert(b.take(a.len() as int) =~= b);
    assert(a.take(a.len() as nat as int) == b.take(a.len() as nat as int));
}

/// The first `n` places of two rankings agree.
proof fn same_prefix(scores: Seq<u32>, a: Seq<usize>, b: Seq<usize>, n: nat)
    requires
        is_ranking(scores, a),
        is_ranking(scores, b),
        n <= a.len(),
        forall|x: usize| x < scores.len() ==> a.contains(x),
        forall|x: usize| x < scores.len() ==> b.contains(x),
    ensures
        a.take(n as int) == b.take(n as int),
    decreases n,
{
    if n > 0 {
        let m = (n - 1) as nat;
        same_prefix(scores, a, b, m);
        let x = a[m as int];
        let y = b[m as int];
        if x != y {
            assert(b.contains(x));
            let i = choose|i: int| 0 <= i < b.len() && b[i] == x;
            assert(a.contains(y));
            let j = choose|j: int| 0 <= j < a.len() && a[j] == y;
            if i < m {
                assert(a.take(m as int)[i] == b.take(m as int)[i]);
                assert(a[i] == x);
                assert(ranks_before(scores, a[i] as int, a[m as int] as int));
            } else if j < m {
                assert(a.take(m as int)[j] == b.take(m as int)[j]);
                assert(b[j] == y);
                assert(ranks_before(scores, b[j] as int, b[m as int] as int));
            } else {
                assert(ranks_before(scores, b[m as int] as int, b[i] as int));
                assert(ranks_before(scores, a[m as int] as int, a[j] as int));
            }
        }
        assert(a.take(n as int) =~= a.take(m as int).push(x));
        assert(b.take(n as int) =~= b.take(m as int).push(y));
    }
}

/// A ranking loses no index.
pub proof fn ranking_lists_every_index(scores: Seq<u32>, order: Seq<usize>)
    requires
        is_ranking(scores, order),
    ensures
        forall|x: usize| x < scores.len() ==> order.contains(x),
{
    let all = Seq::new(scores.len(), |i: int| i as usize);
    assert(order.no_duplicates()) by {
        assert forall|i: int, j: int| 0 <= i < order.len() && 0 <= j < order.len() && i != j implies order[i]
            != order[j] by {
            if i < j {
                assert(ranks_before(scores, order[i] as int, order[j] as int));
            } else {
                assert(ranks_before(scores, order[j] as int, order[i] as int));
            }
        }
    }
    let domain = order.to_set();
    order.unique_seq_to_set();
    let below = Set::new(|x: usize| x < scores.len());
    vstd::set_lib::lemma_int_range(0, scores.len() as int);
    let ints = vstd::set_lib::set_int_range(0, scores.len() as int);
    let image = domain.map(|x: usize| x as int);
    assert(image.len() == domain.len()) by {
        vstd::set_lib::lemma_map_size(domain, image, |x: usize| x as int);
    }
    assert(image.subset_of(ints)) by {
        assert forall|v: int| image.contains(v) implies ints.contains(v) by {
            let x = choose|x: usize| domain.contains(x) && v == x as int;
            assert(order.contains(x));
        }
    }
    vstd::set_lib::lemma_subset_equality(image, ints);
    assert forall|x: usize| x < scores.len() implies order.contains(x) by {
        assert(ints.contains(x as int));
        assert(image.contains(x as int));
        let y = choose|y: usize| domain.contains(y) && x as int == y as int;
        assert(domain.contains(x));
    }
}

/// Bits compare as the numbers they are: of two positive ones the larger bits are the
/// larger number, of two negative ones the smaller number, and a positive number is
/// above a negative one. The two zeros are equal, and no NaN is above, below or equal
/// to anything.
pub proof fn bits_compare_as_numbers(a: u32, b: u32)
    ensures
        a <= 0x7f80_0000 && b <= 0x7f80_0000 ==> (greater(a, b) <==> a > b) && (equal(a, b) <==> a == b),
        0x8000_0000 <= a <= 0xff80_0000 && 0x8000_0000 <= b <= 0xff80_0000 ==> (greater(a, b) <==> a < b)
            && (equal(a, b) <==> a == b),
        0 < a <= 0x7f80_0000 && 0x8000_0000 <= b <= 0xff80_0000 ==> greater(a, b) && !greater(b, a)
            && !equal(a, b),
        equal(0, 0x8000_0000),
        0x7f80_0000 < a < 0x8000_0000 || 0xff80_0000 < a ==> !greater(a, b) && !greater(b, a) && !equal(
            a,
            b,
        ) && !equal(b, a),
{
}

/// Of two numbers just one holds: the first is above, the second is, or they are equal.
pub proof fn numbers_are_above_below_or_equal(a: u32, b: u32)
    requires
        !is_nan(a),
        !is_nan(b),
    ensures
        greater(a, b) || greater(b, a) || equal(a, b),
        !(greater(a, b) && greater(b, a)),
        equal(a, b) ==> !greater(a, b) && !greater(b, a),
{
}

/// The total order is that of the numbers, and puts the negative zero below the
/// positive one, negative NaNs below and positive NaNs above all numbers.
pub proof fn the_total_order_is_that_of_the_numbers(a: u32, b: u32)
    ensures
        greater(a, b) ==> order_key(a) > order_key(b),
        order_key(a) == order_key(b) <==> a == b,
        order_key(0x8000_0000) < order_key(0),
        0x7f80_0000 < a < 0x8000_0000 && !is_nan(b) ==> order_key(a) > order_key(b),
        0xff80_0000 < a && !is_nan(b) ==> order_key(a) < order_key(b),
{
}

/// A number is finite where it is below infinity and above minus infinity.
pub proof fn finite_is_between_the_infinities(bits: u32)
    ensures
        is_finite(bits) <==> greater(0x7f80_0000, bits) && greater(bits, 0xff80_0000),
{
}

/// A ranking puts a higher score before a lower one, and of two equal scores the one
/// that was given first.
pub proof fn a_ranking_puts_the_best_first(scores: Seq<u32>, order: Seq<usize>, i: int, j: int)
    requires
        is_ranking(scores, order),
        0 <= i < j < order.len(),
    ensures
        !greater(scores[order[j] as int], scores[order[i] as int]),
        scores[order[i] as int] == scores[order[j] as int] ==> order[i] < order[j],
{
    assert(ranks_before(scores, order[i] as int, order[j] as int));
}

} // verus!
