//! The order of strings: character by character, a prefix first.

use vstd::prelude::*;
use vstd::relations::{sorted_by, total_ordering};
use crate::text::{chars_of, views};

verus! {

/// Whether `a` is `b` or stands before it.
pub open spec fn lex_le(a: Seq<char>, b: Seq<char>) -> bool
    decreases a.len(),
{
    if a.len() == 0 {
        true
    } else if b.len() == 0 {
        false
    } else if a[0] != b[0] {
        a[0] < b[0]
    } else {
        lex_le(a.drop_first(), b.drop_first())
    }
}

pub proof fn lex_reflexive(a: Seq<char>)
    ensures
        lex_le(a, a),
    decreases a.len(),
{
    if a.len() > 0 {
        lex_reflexive(a.drop_first());
    }
}

pub proof fn lex_antisymmetric(a: Seq<char>, b: Seq<char>)
    requires
        lex_le(a, b),
        lex_le(b, a),
    ensures
        a == b,
    decreases a.len(),
{
    if a.len() > 0 && b.len() > 0 {
        lex_antisymmetric(a.drop_first(), b.drop_first());
        assert(a =~= seq![a[0]] + a.drop_first());
        assert(b =~= seq![b[0]] + b.drop_first());
    } else {
        assert(a =~= b);
    }
}

pub proof fn lex_transitive(a: Seq<char>, b: Seq<char>, c: Seq<char>)
    requires
        lex_le(a, b),
        lex_le(b, c),
    ensures
        lex_le(a, c),
    decreases a.len(),
{
    if a.len() > 0 && b.len() > 0 && c.len() > 0 && a[0] == b[0] && b[0] == c[0] {
        lex_transitive(a.drop_first(), b.drop_first(), c.drop_first());
    }
}

pub proof fn lex_total(a: Seq<char>, b: Seq<char>)
    ensures
        lex_le(a, b) || lex_le(b, a),
    decreases a.len(),
{
    if a.len() > 0 && b.len() > 0 && a[0] == b[0] {
        lex_total(a.drop_first(), b.drop_first());
    }
}

/// The order of strings.
pub open spec fn name_order() -> spec_fn(Seq<char>, Seq<char>) -> bool {
    |a: Seq<char>, b: Seq<char>| lex_le(a, b)
}

/// The order of strings is total.
pub proof fn name_order_is_total()
    ensures
        total_ordering(name_order()),
{
    let r = name_order();
    assert forall|a: Seq<char>| #[trigger] r(a, a) by {
        lex_reflexive(a);
    }
    assert forall|a: Seq<char>, b: Seq<char>| #[trigger] r(a, b) && #[trigger] r(b, a) implies a == b by {
        lex_antisymmetric(a, b);
    }
    assert forall|a: Seq<char>, b: Seq<char>, c: Seq<char>| #[trigger]
        r(a, b) && #[trigger] r(b, c) implies r(a, c) by {
        lex_transitive(a, b, c);
    }
    assert forall|a: Seq<char>, b: Seq<char>| #[trigger] r(a, b) || #[trigger] r(b, a) by {
        lex_total(a, b);
    }
}

/// Whether `a` is `b` or stands before it.
pub fn lex_le_of(a: &str, b: &str) -> (r: bool)
    ensures
        r == lex_le(a@, b@),
{
    let x = chars_of(a);
    let y = chars_of(b);
    let mut i: usize = 0;
    proof {
        assert(x@.skip(0) =~= x@);
        assert(y@.skip(0) =~= y@);
    }
    while i < x.len() && i < y.len() && x[i] == y[i]
        invariant
            i <= x.len(),
            i <= y.len(),
            x@ == a@,
            y@ == b@,
            lex_le(x@.skip(i as int), y@.skip(i as int)) == lex_le(a@, b@),
        decreases x.len() - i,
    {
        proof {
            assert(x@.skip(i as int).drop_first() =~= x@.skip(i + 1));
            assert(y@.skip(i as int).drop_first() =~= y@.skip(i + 1));
        }
        i = i + 1;
    }
    if i >= x.len() {
        true
    } else if i >= y.len() {
        false
    } else {
        x[i] < y[i]
    }
}

/// The strings in order.
pub open spec fn in_order(v: Seq<Seq<char>>) -> Seq<Seq<char>> {
    v.sort_by(name_order())
}

/// Whether strings ascend, none occurring twice.
pub open spec fn ascending(v: Seq<Seq<char>>) -> bool {
    forall|i: int, j: int|
        0 <= i < j < v.len() ==> lex_le(#[trigger] v[i], #[trigger] v[j]) && v[i] != v[j]
}

/// A sequence that is in order and holds the same strings is the strings in order.
pub proof fn in_order_unique(v: Seq<Seq<char>>, w: Seq<Seq<char>>)
    requires
        sorted_by(w, name_order()),
        v.to_multiset() == w.to_multiset(),
    ensures
        w == in_order(v),
{
    name_order_is_total();
    v.lemma_sort_by_ensures(name_order());
    vstd::seq_lib::lemma_sorted_unique(w, in_order(v), name_order());
}

/// The strings in order.
pub fn sorted_names(v: &Vec<String>) -> (r: Vec<String>)
    ensures
        views(r@) == in_order(views(v@)),
{
    let mut out: Vec<String> = Vec::new();
    let mut n: usize = 0;
    proof {
        assert(views(out@) =~= views(v@).take(0));
    }
    while n < v.len()
        invariant
            n <= v.len(),
            out.len() == n,
            sorted_by(views(out@), name_order()),
            views(out@).to_multiset() == views(v@).take(n as int).to_multiset(),
        decreases v.len() - n,
    {
        let item = v[n].as_str();
        let mut at: usize = out.len();
        while at > 0 && !lex_le_of(out[at - 1].as_str(), item)
            invariant
                at <= out.len(),
                sorted_by(views(out@), name_order()),
                forall|i: int| at <= i < out.len() ==> lex_le(item@, #[trigger] views(out@)[i]),
            decreases at,
        {
            at = at - 1;
            proof {
                lex_total(views(out@)[at as int], item@);
            }
        }
        let ghost before = views(out@);
        out.insert(at, item.to_owned());
        proof {
            broadcast use vstd::seq_lib::group_to_multiset_ensures;

            let after = views(out@);
            assert(after =~= before.insert(at as int, item@));
            assert forall|i: int, j: int| 0 <= i < j < after.len() implies #[trigger] name_order()(
                after[i],
                after[j],
            ) by {
                if j < at {
                    assert(name_order()(before[i], before[j]));
                } else if j == at {
                    assert(lex_le(before[at - 1], item@));
                    if i < at - 1 {
                        assert(name_order()(before[i], before[at - 1]));
                        lex_transitive(before[i], before[at - 1], item@);
                    }
                } else if i == at {
                    assert(lex_le(item@, before[j - 1]));
                } else if i < at {
                    assert(name_order()(before[i], before[j - 1]));
                } else {
                    assert(name_order()(before[i - 1], before[j - 1]));
                }
            }
            let w = views(v@);
            assert(w.take(n as int + 1) =~= w.take(n as int).push(item@));
        }
        n = n + 1;
    }
    proof {
        assert(views(v@).take(n as int) =~= views(v@));
        in_order_unique(views(v@), views(out@));
    }
    out
}

/// The order of numbered strings: by number, then by string.
pub open spec fn number_order() -> spec_fn((u32, Seq<char>), (u32, Seq<char>)) -> bool {
    |a: (u32, Seq<char>), b: (u32, Seq<char>)| a.0 < b.0 || (a.0 == b.0 && lex_le(a.1, b.1))
}

/// The order of numbered strings is total.
pub proof fn number_order_is_total()
    ensures
        total_ordering(number_order()),
{
    let r = number_order();
    assert forall|a: (u32, Seq<char>)| #[trigger] r(a, a) by {
        lex_reflexive(a.1);
    }
    assert forall|a: (u32, Seq<char>), b: (u32, Seq<char>)| #[trigger]
        r(a, b) && #[trigger] r(b, a) implies a == b by {
        lex_antisymmetric(a.1, b.1);
    }
    assert forall|a: (u32, Seq<char>), b: (u32, Seq<char>), c: (u32, Seq<char>)| #[trigger]
        r(a, b) && #[trigger] r(b, c) implies r(a, c) by {
        if a.0 == b.0 && b.0 == c.0 {
            lex_transitive(a.1, b.1, c.1);
        }
    }
    assert forall|a: (u32, Seq<char>), b: (u32, Seq<char>)| #[trigger] r(a, b) || #[trigger] r(
        b,
        a,
    ) by {
        lex_total(a.1, b.1);
    }
}

/// The views of numbered strings.
pub open spec fn numbered_views(v: Seq<(u32, String)>) -> Seq<(u32, Seq<char>)> {
    Seq::new(v.len(), |i: int| (v[i].0, v[i].1@))
}

/// The strings of numbered strings.
pub open spec fn strings_of(v: Seq<(u32, Seq<char>)>) -> Seq<Seq<char>> {
    Seq::new(v.len(), |i: int| v[i].1)
}

/// Numbered strings in order.
pub fn sorted_by_number(v: &Vec<(u32, String)>) -> (r: Vec<String>)
    ensures
        views(r@) == strings_of(numbered_views(v@).sort_by(number_order())),
{
    let mut out: Vec<(u32, String)> = Vec::new();
    let mut n: usize = 0;
    proof {
        assert(numbered_views(out@) =~= numbered_views(v@).take(0));
    }
    while n < v.len()
        invariant
            n <= v.len(),
            out.len() == n,
            sorted_by(numbered_views(out@), number_order()),
            numbered_views(out@).to_multiset() == numbered_views(v@).take(n as int).to_multiset(),
        decreases v.len() - n,
    {
        let k: u32 = v[n].0;
        let item = v[n].1.as_str();
        let ghost x = (k, item@);
        let mut at: usize = out.len();
        while at > 0 && (out[at - 1].0 > k || (out[at - 1].0 == k && !lex_le_of(
            out[at - 1].1.as_str(),
            item,
        )))
            invariant
                at <= out.len(),
                x == (k, item@),
                sorted_by(numbered_views(out@), number_order()),
                forall|i: int|
                    at <= i < out.len() ==> number_order()(x, #[trigger] numbered_views(out@)[i]),
            decreases at,
        {
            at = at - 1;
            proof {
                lex_total(numbered_views(out@)[at as int].1, item@);
            }
        }
        let ghost before = numbered_views(out@);
        proof {
            if at > 0 {
                lex_total(before[at - 1].1, item@);
                assert(number_order()(before[at - 1], x));
            }
        }
        out.insert(at, (k, item.to_owned()));
        proof {
            broadcast use vstd::seq_lib::group_to_multiset_ensures;

            number_order_is_total();
            let after = numbered_views(out@);
            assert(after =~= before.insert(at as int, x));
            assert forall|i: int, j: int| 0 <= i < j < after.len() implies #[trigger] number_order()(
                after[i],
                after[j],
            ) by {
                if j < at {
                    assert(number_order()(before[i], before[j]));
                } else if j == at {
                    assert(number_order()(before[at - 1], x));
                    if i < at - 1 {
                        assert(number_order()(before[i], before[at - 1]));
                    }
                } else if i == at {
                    assert(number_order()(x, before[j - 1]));
                } else if i < at {
                    assert(number_order()(before[i], before[j - 1]));
                } else {
                    assert(number_order()(before[i - 1], before[j - 1]));
                }
            }
            let w = numbered_views(v@);
            assert(w.take(n as int + 1) =~= w.take(n as int).push(x));
        }
        n = n + 1;
    }
    proof {
        let w = numbered_views(v@);
        assert(w.take(n as int) =~= w);
        number_order_is_total();
        w.lemma_sort_by_ensures(number_order());
        vstd::seq_lib::lemma_sorted_unique(
            numbered_views(out@),
            w.sort_by(number_order()),
            number_order(),
        );
    }
    let ghost sorted = numbered_views(out@);
    let mut strings: Vec<String> = Vec::new();
    let mut i: usize = 0;
    while i < out.len()
        invariant
            i <= out.len(),
            sorted == numbered_views(out@),
            views(strings@) == strings_of(sorted).take(i as int),
        decreases out.len() - i,
    {
        let ghost before = views(strings@);
        strings.push(out[i].1.clone());
        i = i + 1;
        proof {
            assert(views(strings@) =~= before.push(sorted[i - 1].1));
            assert(views(strings@) =~= strings_of(sorted).take(i as int));
        }
    }
    proof {
        assert(strings_of(sorted).take(i as int) =~= strings_of(sorted));
    }
    strings
}

/// Names are ordered by the first character in which they differ, the lower one
/// first, and a name stands before those that it begins.
pub proof fn names_are_ordered_by_their_first_difference(
    p: Seq<char>,
    x: char,
    a: Seq<char>,
    y: char,
    b: Seq<char>,
)
    requires
        x != y,
    ensures
        lex_le(p + seq![x] + a, p + seq![y] + b) <==> x < y,
        lex_le(p, p + a),
        a.len() > 0 ==> !lex_le(p + a, p),
    decreases p.len(),
{
    let u = p + seq![x] + a;
    let v = p + seq![y] + b;
    if p.len() > 0 {
        let t = p.drop_first();
        names_are_ordered_by_their_first_difference(t, x, a, y, b);
        assert(u.drop_first() =~= t + seq![x] + a);
        assert(v.drop_first() =~= t + seq![y] + b);
        assert((p + a).drop_first() =~= t + a);
    } else {
        assert(u[0] == x && v[0] == y);
    }
}

/// Numbered names come in ascending order of their numbers, whatever the names:
/// sorting leaves the same entries, and an entry never stands behind one with a
/// higher number.
pub proof fn lower_numbers_come_first(v: Seq<(u32, Seq<char>)>, i: int, j: int)
    requires
        0 <= i < j < v.len(),
    ensures
        ({
            let w = v.sort_by(number_order());
            &&& w.len() == v.len()
            &&& w[i].0 <= w[j].0
            &&& w.to_multiset() == v.to_multiset()
            &&& strings_of(w).len() == w.len() && strings_of(w)[i] == w[i].1
        }),
{
    number_order_is_total();
    v.lemma_sort_by_ensures(number_order());
    let w = v.sort_by(number_order());
    w.to_multiset_ensures();
    v.to_multiset_ensures();
    assert(number_order()(w[i], w[j]));
}

/// Names come in ascending order: sorting leaves the same names, and none stands
/// behind a later one of the order.
pub proof fn earlier_names_come_first(v: Seq<Seq<char>>, i: int, j: int)
    requires
        0 <= i < j < v.len(),
    ensures
        in_order(v).len() == v.len(),
        lex_le(in_order(v)[i], in_order(v)[j]),
        in_order(v).to_multiset() == v.to_multiset(),
{
    name_order_is_total();
    v.lemma_sort_by_ensures(name_order());
    in_order(v).to_multiset_ensures();
    v.to_multiset_ensures();
    assert(name_order()(in_order(v)[i], in_order(v)[j]));
}

} // verus!
