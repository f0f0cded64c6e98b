//! Text: decimal numbers, joining, splitting and comparison of strings.
//!
//! A string is its sequence of characters. Messages are built from parts with
//! the `cat` functions, so that a contract can spell a message out.

use vstd::prelude::*;

verus! {

/// `String::push` appends one character.
pub assume_specification[ String::push ](s: &mut String, c: char)
    ensures
        final(s)@ == old(s)@.push(c),
;

/// The decimal digit of a number below ten.
pub open spec fn digit(d: nat) -> char {
    (48 + d) as char
}

/// A number in decimal, without leading zeros.
pub open spec fn decimal(n: nat) -> Seq<char>
    decreases n,
{
    if n < 10 {
        seq![digit(n)]
    } else {
        decimal(n / 10).push(digit(n % 10))
    }
}

/// An integer in decimal, with a minus sign before a negative one.
pub open spec fn signed_decimal(n: int) -> Seq<char> {
    if n < 0 {
        seq!['-'] + decimal((-n) as nat)
    } else {
        decimal(n as nat)
    }
}

/// `n` in decimal.
pub fn decimal_of(n: u128) -> (r: String)
    ensures
        r@ == decimal(n as nat),
    decreases n,
{
    let mut s: String = if n < 10 {
        String::new()
    } else {
        decimal_of(n / 10)
    };
    let d: u8 = (n % 10) as u8;
    s.push((48u8 + d) as char);
    proof {
        assert(s@ =~= decimal(n as nat));
    }
    s
}

/// `n` in decimal, signed.
pub fn signed_of(n: i64) -> (r: String)
    ensures
        r@ == signed_decimal(n as int),
{
    if n < 0 {
        let m: u128 = (-(n as i128)) as u128;
        let mut s = String::new();
        s.push('-');
        s.append(decimal_of(m).as_str());
        proof {
            assert(s@ =~= signed_decimal(n as int));
        }
        s
    } else {
        decimal_of(n as u128)
    }
}

/// Whether two strings hold the same characters.
pub fn same(a: &str, b: &str) -> (r: bool)
    ensures
        r == (a@ == b@),
{
    a.to_owned() == b.to_owned()
}

/// The characters of a string.
pub fn chars_of(s: &str) -> (r: Vec<char>)
    ensures
        r@ == s@,
{
    let mut out: Vec<char> = Vec::new();
    for c in it: s.chars()
        invariant
            out@ == s@.take(it.index()),
            it.seq() == s@,
    {
        out.push(c);
        proof {
            assert(out@ =~= s@.take(it.index() + 1));
        }
    }
    proof {
        assert(s@.take(s@.len() as int) =~= s@);
    }
    out
}

/// The concatenation of two parts.
pub fn cat2(a: &str, b: &str) -> (r: String)
    ensures
        r@ == a@ + b@,
{
    let mut s = a.to_owned();
    s.append(b);
    s
}

/// The concatenation of three parts.
pub fn cat3(a: &str, b: &str, c: &str) -> (r: String)
    ensures
        r@ == a@ + b@ + c@,
{
    let mut s = a.to_owned();
    s.append(b);
    s.append(c);
    s
}

/// The concatenation of four parts.
pub fn cat4(a: &str, b: &str, c: &str, d: &str) -> (r: String)
    ensures
        r@ == a@ + b@ + c@ + d@,
{
    let mut s = a.to_owned();
    s.append(b);
    s.append(c);
    s.append(d);
    s
}

/// The concatenation of five parts.
pub fn cat5(a: &str, b: &str, c: &str, d: &str, e: &str) -> (r: String)
    ensures
        r@ == a@ + b@ + c@ + d@ + e@,
{
    let mut s = a.to_owned();
    s.append(b);
    s.append(c);
    s.append(d);
    s.append(e);
    s
}

/// The concatenation of six parts.
pub fn cat6(a: &str, b: &str, c: &str, d: &str, e: &str, f: &str) -> (r: String)
    ensures
        r@ == a@ + b@ + c@ + d@ + e@ + f@,
{
    let mut s = a.to_owned();
    s.append(b);
    s.append(c);
    s.append(d);
    s.append(e);
    s.append(f);
    s
}

/// The concatenation of seven parts.
pub fn cat7(a: &str, b: &str, c: &str, d: &str, e: &str, f: &str, g: &str) -> (r: String)
    ensures
        r@ == a@ + b@ + c@ + d@ + e@ + f@ + g@,
{
    let mut s = a.to_owned();
    s.append(b);
    s.append(c);
    s.append(d);
    s.append(e);
    s.append(f);
    s.append(g);
    s
}

/// The concatenation of eight parts.
pub fn cat8(a: &str, b: &str, c: &str, d: &str, e: &str, f: &str, g: &str, h: &str) -> (r: String)
    ensures
        r@ == a@ + b@ + c@ + d@ + e@ + f@ + g@ + h@,
{
    let mut s = a.to_owned();
    s.append(b);
    s.append(c);
    s.append(d);
    s.append(e);
    s.append(f);
    s.append(g);
    s.append(h);
    s
}

/// The concatenation of nine parts.
pub fn cat9(a: &str, b: &str, c: &str, d: &str, e: &str, f: &str, g: &str, h: &str, i: &str) -> (r: String)
    ensures
        r@ == a@ + b@ + c@ + d@ + e@ + f@ + g@ + h@ + i@,
{
    let mut s = a.to_owned();
    s.append(b);
    s.append(c);
    s.append(d);
    s.append(e);
    s.append(f);
    s.append(g);
    s.append(h);
    s.append(i);
    s
}

/// The views of a sequence of strings.
pub open spec fn views(v: Seq<String>) -> Seq<Seq<char>> {
    Seq::new(v.len(), |i: int| v[i]@)
}

/// Where `c` first stands in `s`; the length of `s` if nowhere.
pub open spec fn first_at(s: Seq<char>, c: char) -> nat
    decreases s.len(),
{
    if s.len() == 0 || s[0] == c {
        0
    } else {
        1 + first_at(s.drop_first(), c)
    }
}

/// What `first_at` means.
pub proof fn first_at_is_first(s: Seq<char>, c: char)
    ensures
        first_at(s, c) <= s.len(),
        first_at(s, c) < s.len() ==> s[first_at(s, c) as int] == c,
        forall|j: int| 0 <= j < first_at(s, c) ==> s[j] != c,
    decreases s.len(),
{
    if s.len() > 0 && s[0] != c {
        let t = s.drop_first();
        first_at_is_first(t, c);
        assert forall|j: int| 0 <= j < first_at(s, c) implies s[j] != c by {
            if j > 0 {
                assert(s[j] == t[j - 1]);
            }
        }
    }
}

/// The first position is the only one with nothing before it.
pub proof fn first_at_unique(s: Seq<char>, c: char, i: int)
    requires
        0 <= i <= s.len(),
        i < s.len() ==> s[i] == c,
        forall|j: int| 0 <= j < i ==> s[j] != c,
    ensures
        first_at(s, c) == i,
{
    first_at_is_first(s, c);
    let k = first_at(s, c) as int;
    if k < i {
        assert(s[k] != c);
    } else if i < k {
        assert(s[i] != c);
    }
}

/// Where `c` first stands in `s` at or after `from`.
pub fn find_from(s: &Vec<char>, c: char, from: usize) -> (r: usize)
    requires
        from <= s.len(),
    ensures
        from <= r <= s.len(),
        r - from == first_at(s@.skip(from as int), c),
{
    let mut i: usize = from;
    while i < s.len() && s[i] != c
        invariant
            from <= i <= s.len(),
            forall|j: int| from <= j < i ==> s@[j] != c,
        decreases s.len() - i,
    {
        i = i + 1;
    }
    proof {
        let t = s@.skip(from as int);
        assert forall|j: int| 0 <= j < i - from implies t[j] != c by {
            assert(t[j] == s@[from + j]);
        }
        first_at_unique(t, c, i - from);
    }
    i
}

/// The pieces of `s` between the separators: one more than there are separators.
pub open spec fn split_on(s: Seq<char>, sep: char) -> Seq<Seq<char>>
    decreases s.len(),
{
    let i = first_at(s, sep);
    if i >= s.len() {
        seq![s]
    } else {
        seq![s.take(i as int)] + split_on(s.skip(i as int + 1), sep)
    }
}

/// The characters `from..to` as a string.
pub fn slice_of(c: &Vec<char>, from: usize, to: usize) -> (r: String)
    requires
        from <= to <= c.len(),
    ensures
        r@ == c@.subrange(from as int, to as int),
{
    let mut s = String::new();
    let mut i: usize = from;
    while i < to
        invariant
            from <= i <= to <= c.len(),
            s@ == c@.subrange(from as int, i as int),
        decreases to - i,
    {
        s.push(c[i]);
        i = i + 1;
        proof {
            assert(s@ =~= c@.subrange(from as int, i as int));
        }
    }
    s
}

/// `str::split` on one character.
pub fn split_of(s: &str, sep: char) -> (r: Vec<String>)
    ensures
        views(r@) == split_on(s@, sep),
        r.len() >= 1,
{
    let c = chars_of(s);
    let mut out: Vec<String> = Vec::new();
    let mut from: usize = 0;
    proof {
        assert(c@.skip(0) =~= s@);
        assert(views(out@) + split_on(s@, sep) =~= split_on(s@, sep));
    }
    loop
        invariant_except_break
            c@ == s@,
            from <= c.len(),
            views(out@) + split_on(c@.skip(from as int), sep) == split_on(s@, sep),
        ensures
            views(out@) == split_on(s@, sep),
            out.len() >= 1,
        decreases c.len() - from,
    {
        let ghost rest = c@.skip(from as int);
        let ghost before = views(out@);
        let ghost start = from as int;
        let at = find_from(&c, sep, from);
        out.push(slice_of(&c, from, at));
        proof {
            assert(c@.subrange(start, at as int) =~= rest.take(at - start));
            assert(views(out@) =~= before + seq![rest.take(at - start)]);
        }
        if at >= c.len() {
            proof {
                assert(rest.take(at - start) =~= rest);
            }
            break;
        }
        from = at + 1;
        proof {
            let tail = split_on(rest.skip(at - start + 1), sep);
            assert(rest.skip(at - start + 1) =~= c@.skip(from as int));
            assert(before + (seq![rest.take(at - start)] + tail) =~= (before + seq![rest.take(
                at - start,
            )]) + tail);
        }
    }
    out
}

/// `str::split_once` on one character: what stands before and after the first `sep`.
pub fn split_once_of(s: &str, sep: char) -> (r: Option<(String, String)>)
    ensures
        r is Some <==> first_at(s@, sep) < s@.len(),
        r matches Some(p) ==> p.0@ == s@.take(first_at(s@, sep) as int) && p.1@ == s@.skip(
            first_at(s@, sep) as int + 1,
        ),
{
    let c = chars_of(s);
    proof {
        assert(c@.skip(0) =~= c@);
    }
    let at = find_from(&c, sep, 0);
    if at >= c.len() {
        return None;
    }
    let a = slice_of(&c, 0, at);
    let b = slice_of(&c, at + 1, c.len());
    proof {
        assert(a@ =~= s@.take(at as int));
        assert(b@ =~= s@.skip(at as int + 1));
    }
    Some((a, b))
}

/// Where `c` last stands in `s`; -1 if nowhere.
pub open spec fn last_at(s: Seq<char>, c: char) -> int
    decreases s.len(),
{
    if s.len() == 0 {
        -1
    } else if s.last() == c {
        s.len() - 1
    } else {
        last_at(s.drop_last(), c)
    }
}

/// The last position lies inside the string.
pub proof fn last_at_bounds(s: Seq<char>, c: char)
    ensures
        -1 <= last_at(s, c) < s.len(),
    decreases s.len(),
{
    if s.len() > 0 && s.last() != c {
        last_at_bounds(s.drop_last(), c);
    }
}

/// `str::rsplit_once` on one character: what stands before and after the last `sep`.
pub fn rsplit_once_of(s: &str, sep: char) -> (r: Option<(String, String)>)
    ensures
        r is Some <==> last_at(s@, sep) >= 0,
        r matches Some(p) ==> p.0@ == s@.take(last_at(s@, sep)) && p.1@ == s@.skip(
            last_at(s@, sep) + 1,
        ),
{
    let c = chars_of(s);
    let mut n: usize = c.len();
    proof {
        assert(c@.take(n as int) =~= c@);
    }
    while n > 0 && c[n - 1] != sep
        invariant
            n <= c.len(),
            last_at(c@.take(n as int), sep) == last_at(c@, sep),
        decreases n,
    {
        proof {
            assert(c@.take(n as int).drop_last() =~= c@.take(n - 1));
        }
        n = n - 1;
    }
    if n == 0 {
        return None;
    }
    proof {
        assert(c@.take(n as int).last() == sep);
    }
    let a = slice_of(&c, 0, n - 1);
    let b = slice_of(&c, n, c.len());
    proof {
        assert(a@ =~= s@.take(n - 1));
        assert(b@ =~= s@.skip(n as int));
    }
    Some((a, b))
}

/// The parts with `sep` between each two.
pub open spec fn joined(parts: Seq<Seq<char>>, sep: Seq<char>) -> Seq<char>
    decreases parts.len(),
{
    if parts.len() == 0 {
        Seq::empty()
    } else if parts.len() == 1 {
        parts[0]
    } else {
        joined(parts.drop_last(), sep) + sep + parts.last()
    }
}

/// `join` of a list of strings.
pub fn join_of(parts: &Vec<String>, sep: &str) -> (r: String)
    ensures
        r@ == joined(views(parts@), sep@),
{
    let mut s = String::new();
    let mut i: usize = 0;
    let ghost all = views(parts@);
    while i < parts.len()
        invariant
            i <= parts.len(),
            all == views(parts@),
            s@ == joined(all.take(i as int), sep@),
        decreases parts.len() - i,
    {
        proof {
            let next = all.take(i as int + 1);
            assert(next.drop_last() =~= all.take(i as int));
            assert(next.last() == parts@[i as int]@);
        }
        if i > 0 {
            s.append(sep);
        }
        s.append(parts[i].as_str());
        proof {
            if i == 0 {
                assert(s@ =~= all.take(1)[0]);
            }
        }
        i = i + 1;
    }
    proof {
        assert(all.take(i as int) =~= all);
    }
    s
}

/// Whether `s` begins with `t`.
pub open spec fn starts(s: Seq<char>, t: Seq<char>) -> bool {
    t.len() <= s.len() && s.take(t.len() as int) == t
}

/// Whether `s` ends with `t`.
pub open spec fn ends(s: Seq<char>, t: Seq<char>) -> bool {
    t.len() <= s.len() && s.skip(s.len() - t.len()) == t
}

/// `str::ends_with`.
pub fn ends_with_of(s: &str, t: &str) -> (r: bool)
    ensures
        r == ends(s@, t@),
{
    let n = s.unicode_len();
    let m = t.unicode_len();
    if m > n {
        return false;
    }
    let tail = s.substring_char(n - m, n);
    proof {
        assert(s@.subrange(n - m, n as int) =~= s@.skip(n - m));
    }
    same(tail, t)
}

/// `str::starts_with`.
pub fn starts_with_of(s: &str, t: &str) -> (r: bool)
    ensures
        r == starts(s@, t@),
{
    let n = s.unicode_len();
    let m = t.unicode_len();
    if m > n {
        return false;
    }
    let head = s.substring_char(0, m);
    proof {
        assert(s@.subrange(0, m as int) =~= s@.take(m as int));
    }
    same(head, t)
}

/// An ASCII capital in lower case; any other character as it is.
pub open spec fn lower(c: char) -> char {
    if 'A' <= c && c <= 'Z' {
        (c as u32 + 32) as char
    } else {
        c
    }
}

/// `lower` on each character.
pub open spec fn lowered(s: Seq<char>) -> Seq<char> {
    Seq::new(s.len(), |i: int| lower(s[i]))
}

/// `str::to_ascii_lowercase`.
pub fn lower_of(s: &str) -> (r: String)
    ensures
        r@ == lowered(s@),
{
    let c = chars_of(s);
    let mut out = String::new();
    let mut i: usize = 0;
    while i < c.len()
        invariant
            i <= c.len(),
            c@ == s@,
            out@ == lowered(s@).take(i as int),
        decreases c.len() - i,
    {
        let k = c[i];
        if 'A' <= k && k <= 'Z' {
            out.push((k as u8 + 32u8) as char);
        } else {
            out.push(k);
        }
        i = i + 1;
        proof {
            assert(out@ =~= lowered(s@).take(i as int));
        }
    }
    proof {
        assert(lowered(s@).take(i as int) =~= lowered(s@));
    }
    out
}

/// Whether a character is a decimal digit.
pub open spec fn is_digit(c: char) -> bool {
    '0' <= c && c <= '9'
}

/// The number that decimal digits write.
pub open spec fn digits_value(s: Seq<char>) -> nat
    decreases s.len(),
{
    if s.len() == 0 {
        0
    } else {
        digits_value(s.drop_last()) * 10 + (s.last() as nat - 48) as nat
    }
}

/// The digits of an unsigned number as std reads it: one `+` may come first.
pub open spec fn unsigned_digits(s: Seq<char>) -> Seq<char> {
    if s.len() > 0 && s[0] == '+' {
        s.skip(1)
    } else {
        s
    }
}

/// The number that `s` writes, where it is one and at most `max`.
pub open spec fn unsigned_value(s: Seq<char>, max: nat) -> Option<nat> {
    let d = unsigned_digits(s);
    if d.len() > 0 && (forall|i: int| 0 <= i < d.len() ==> is_digit(#[trigger] d[i]))
        && digits_value(d) <= max {
        Some(digits_value(d))
    } else {
        None
    }
}

/// A prefix of digits writes no larger number than the whole.
pub proof fn digits_value_grows(s: Seq<char>, i: int)
    requires
        0 <= i <= s.len(),
    ensures
        digits_value(s.take(i)) <= digits_value(s),
    decreases s.len() - i,
{
    if i == s.len() {
        assert(s.take(i) =~= s);
    } else {
        digits_value_grows(s, i + 1);
        assert(s.take(i + 1).drop_last() =~= s.take(i));
    }
}

/// `str::parse` to an unsigned integer whose largest value is `max`.
pub fn parse_unsigned(s: &str, max: u64) -> (r: Option<u64>)
    ensures
        r is Some <==> unsigned_value(s@, max as nat) is Some,
        r matches Some(n) ==> unsigned_value(s@, max as nat) == Some(n as nat),
{
    let c = chars_of(s);
    let from: usize = if c.len() > 0 && c[0] == '+' {
        1
    } else {
        0
    };
    let ghost d = unsigned_digits(s@);
    proof {
        assert(d =~= c@.skip(from as int));
    }
    if from == c.len() {
        return None;
    }
    let mut n: u64 = 0;
    let mut i: usize = from;
    while i < c.len()
        invariant
            from <= i <= c.len(),
            d == c@.skip(from as int),
            d == unsigned_digits(s@),
            n <= max,
            n == digits_value(d.take(i - from)),
            forall|j: int| 0 <= j < i - from ==> is_digit(#[trigger] d[j]),
        decreases c.len() - i,
    {
        let k = c[i];
        assert(d[i - from] == k);
        if !('0' <= k && k <= '9') {
            return None;
        }
        let m: u128 = (n as u128) * 10 + ((k as u8 - 48u8) as u128);
        proof {
            assert(d.take(i - from + 1).drop_last() =~= d.take(i - from));
            assert(m == digits_value(d.take(i - from + 1)));
            digits_value_grows(d, i - from + 1);
        }
        if m > max as u128 {
            return None;
        }
        n = m as u64;
        i = i + 1;
    }
    proof {
        assert(d.take(i - from) =~= d);
    }
    Some(n)
}

/// The integers in decimal.
pub open spec fn decimals(v: Seq<i64>) -> Seq<Seq<char>> {
    Seq::new(v.len(), |i: int| signed_decimal(v[i] as int))
}

/// A list of integers as debug output shows it: `[1, 2]`.
pub open spec fn bracketed(v: Seq<i64>) -> Seq<char> {
    "["@ + joined(decimals(v), ", "@) + "]"@
}

/// A list of integers as debug output shows it.
pub fn bracketed_of(v: &Vec<i64>) -> (r: String)
    ensures
        r@ == bracketed(v@),
{
    let mut parts: Vec<String> = Vec::new();
    let mut i: usize = 0;
    while i < v.len()
        invariant
            i <= v.len(),
            views(parts@) == decimals(v@.take(i as int)),
        decreases v.len() - i,
    {
        let ghost before = views(parts@);
        parts.push(signed_of(v[i]));
        i = i + 1;
        proof {
            assert(views(parts@) =~= before.push(signed_decimal(v@[i - 1] as int)));
            assert(views(parts@) =~= decimals(v@.take(i as int)));
        }
    }
    proof {
        assert(v@.take(i as int) =~= v@);
    }
    cat3("[", join_of(&parts, ", ").as_str(), "]")
}

/// A copy of a list of strings.
pub fn copy_all(v: &Vec<String>) -> (r: Vec<String>)
    ensures
        views(r@) == views(v@),
{
    let mut out: Vec<String> = Vec::new();
    let mut i: usize = 0;
    while i < v.len()
        invariant
            i <= v.len(),
            views(out@) == views(v@).take(i as int),
        decreases v.len() - i,
    {
        let ghost before = views(out@);
        out.push(v[i].clone());
        i = i + 1;
        proof {
            assert(views(out@) =~= before.push(v@[i - 1]@));
            assert(views(out@) =~= views(v@).take(i as int));
        }
    }
    proof {
        assert(views(v@).take(i as int) =~= views(v@));
    }
    out
}

/// Whether a list of strings holds a string.
pub fn holds(v: &Vec<String>, s: &str) -> (r: bool)
    ensures
        r == views(v@).contains(s@),
{
    let mut i: usize = 0;
    while i < v.len()
        invariant
            i <= v.len(),
            forall|j: int| 0 <= j < i ==> #[trigger] views(v@)[j] != s@,
        decreases v.len() - i,
    {
        assert(views(v@)[i as int] == v@[i as int]@);
        if same(v[i].as_str(), s) {
            return true;
        }
        i = i + 1;
    }
    false
}

/// Whether `t` stands in `s` at `i`.
pub open spec fn occurs_at(s: Seq<char>, t: Seq<char>, i: int) -> bool {
    0 <= i && i + t.len() <= s.len() && s.subrange(i, i + t.len()) == t
}

/// Whether `t` stands in `s`.
pub open spec fn occurs(s: Seq<char>, t: Seq<char>) -> bool {
    exists|i: int| occurs_at(s, t, i)
}

/// `str::contains`.
pub fn contains_of(s: &str, t: &str) -> (r: bool)
    ensures
        r == occurs(s@, t@),
{
    let n = s.unicode_len();
    let m = t.unicode_len();
    if m > n {
        return false;
    }
    let last: usize = n - m;
    let mut i: usize = 0;
    loop
        invariant
            i <= last,
            last == n - m,
            n == s@.len(),
            m == t@.len(),
            forall|j: int| 0 <= j < i ==> !occurs_at(s@, t@, j),
        decreases last - i,
    {
        if same(s.substring_char(i, i + m), t) {
            assert(occurs_at(s@, t@, i as int));
            return true;
        }
        if i == last {
            return false;
        }
        i = i + 1;
    }
}

/// Unsigned integers in decimal.
pub open spec fn unsigned_decimals(v: Seq<u64>) -> Seq<Seq<char>> {
    Seq::new(v.len(), |i: int| decimal(v[i] as nat))
}

/// A list of unsigned integers as debug output shows it: `[1, 2]`.
pub open spec fn unsigned_bracketed(v: Seq<u64>) -> Seq<char> {
    "["@ + joined(unsigned_decimals(v), ", "@) + "]"@
}

/// A list of unsigned integers as debug output shows it.
pub fn unsigned_bracketed_of(v: &Vec<u64>) -> (r: String)
    ensures
        r@ == unsigned_bracketed(v@),
{
    let mut parts: Vec<String> = Vec::new();
    let mut i: usize = 0;
    while i < v.len()
        invariant
            i <= v.len(),
            views(parts@) == unsigned_decimals(v@.take(i as int)),
        decreases v.len() - i,
    {
        let ghost before = views(parts@);
        parts.push(decimal_of(v[i] as u128));
        i = i + 1;
        proof {
            assert(views(parts@) =~= before.push(decimal(v@[i - 1] as nat)));
            assert(views(parts@) =~= unsigned_decimals(v@.take(i as int)));
        }
    }
    proof {
        assert(v@.take(i as int) =~= v@);
    }
    cat3("[", join_of(&parts, ", ").as_str(), "]")
}

/// The view of an optional string.
pub open spec fn opt_view(s: Option<String>) -> Option<Seq<char>> {
    match s {
        Some(t) => Some(t@),
        None => None,
    }
}

/// A copy of an optional string.
pub fn copy_opt(s: &Option<String>) -> (r: Option<String>)
    ensures
        opt_view(r) == opt_view(*s),
{
    match s {
        Some(t) => Some(t.clone()),
        None => None,
    }
}

/// A string as debug output shows it: in quotes, with escapes.
pub uninterp spec fn quoted(s: Seq<char>) -> Seq<char>;

/// `format!` with `{:?}` on a string. Claimed is that the text depends on the
/// string alone.
#[verifier::external_body]
pub(crate) fn quote(s: &str) -> (r: String)
    ensures
        r@ == quoted(s@),
{
    format!("{s:?}")
}

/// Each string as debug output shows it.
pub open spec fn all_quoted(v: Seq<Seq<char>>) -> Seq<Seq<char>> {
    Seq::new(v.len(), |i: int| quoted(v[i]))
}

/// A list of strings as debug output shows it: `["a", "b"]`.
pub fn quoted_list(v: &Vec<String>) -> (r: String)
    ensures
        r@ == "["@ + joined(all_quoted(views(v@)), ", "@) + "]"@,
{
    let mut parts: Vec<String> = Vec::new();
    let mut i: usize = 0;
    while i < v.len()
        invariant
            i <= v.len(),
            views(parts@) == all_quoted(views(v@)).take(i as int),
        decreases v.len() - i,
    {
        let ghost before = views(parts@);
        parts.push(quote(v[i].as_str()));
        i = i + 1;
        proof {
            assert(views(parts@) =~= before.push(quoted(v@[i - 1]@)));
            assert(views(parts@) =~= all_quoted(views(v@)).take(i as int));
        }
    }
    proof {
        assert(all_quoted(views(v@)).take(i as int) =~= all_quoted(views(v@)));
    }
    cat3("[", join_of(&parts, ", ").as_str(), "]")
}

/// A number in decimal is read back as that number, sign or none before it.
pub proof fn a_decimal_reads_back(n: nat, max: nat)
    requires
        n <= max,
    ensures
        unsigned_value(decimal(n), max) == Some(n),
        unsigned_value(seq!['+'] + decimal(n), max) == Some(n),
        n > 0 ==> decimal(n)[0] != '0',
{
    decimal_is_digits(n);
    let d = decimal(n);
    assert(d[0] != '+');
    assert((seq!['+'] + d).skip(1) =~= d);
}

/// What is written in decimal is digits, and theirs is the number.
proof fn decimal_is_digits(n: nat)
    ensures
        decimal(n).len() > 0,
        forall|i: int| 0 <= i < decimal(n).len() ==> is_digit(#[trigger] decimal(n)[i]),
        digits_value(decimal(n)) == n,
        n > 0 ==> decimal(n)[0] != '0',
    decreases n,
{
    reveal_with_fuel(digits_value, 2);
    if n >= 10 {
        decimal_is_digits(n / 10);
        let d = decimal(n / 10);
        assert(d.push(digit(n % 10)).drop_last() =~= d);
    } else {
        assert(seq![digit(n)].drop_last().len() == 0);
    }
}

/// What does not read as a number is empty, too large, or holds something that is no digit.
pub proof fn numbers_are_digits_only(s: Seq<char>, max: nat)
    ensures
        unsigned_value(s, max) matches Some(n) ==> n <= max && s.len() > 0 && forall|i: int|
            1 <= i < s.len() ==> '0' <= #[trigger] s[i] <= '9',
        unsigned_value(s, max) is Some ==> s[0] == '+' || '0' <= s[0] <= '9',
        unsigned_value(Seq::empty(), max) is None,
{
    if unsigned_value(s, max) is Some {
        let d = unsigned_digits(s);
        assert forall|i: int| 1 <= i < s.len() implies '0' <= #[trigger] s[i] <= '9' by {
            if s[0] == '+' {
                assert(is_digit(d[i - 1]));
            } else {
                assert(is_digit(d[i]));
            }
        }
        if s[0] != '+' {
            assert(is_digit(d[0]));
        }
    }
}

/// Parts without the separator, joined by it, are split into the same parts.
pub proof fn joined_parts_split_back(parts: Seq<Seq<char>>, sep: char)
    requires
        parts.len() > 0,
        forall|i: int| 0 <= i < parts.len() ==> !(#[trigger] parts[i]).contains(sep),
    ensures
        split_on(joined(parts, seq![sep]), sep) == parts,
    decreases parts.len(),
{
    if parts.len() == 1 {
        assert(!parts[0].contains(sep));
        without_is_one_part(parts[0], sep);
        assert(parts =~= seq![parts[0]]);
    } else {
        let head = parts.drop_last();
        assert forall|i: int| 0 <= i < head.len() implies !(#[trigger] head[i]).contains(sep) by {
            assert(head[i] == parts[i]);
        }
        joined_parts_split_back(head, sep);
        assert(!parts[parts.len() - 1].contains(sep));
        split_of_more(joined(head, seq![sep]), parts.last(), sep);
        assert(head.push(parts.last()) =~= parts);
    }
}

/// What has no separator is one part.
proof fn without_is_one_part(s: Seq<char>, sep: char)
    requires
        !s.contains(sep),
    ensures
        split_on(s, sep) == seq![s],
{
    first_at_is_first(s, sep);
    if first_at(s, sep) < s.len() {
        assert(s[first_at(s, sep) as int] == sep);
    }
}

/// One more part behind a separator is one more part of the split.
proof fn split_of_more(a: Seq<char>, t: Seq<char>, sep: char)
    requires
        !t.contains(sep),
    ensures
        split_on(a + seq![sep] + t, sep) == split_on(a, sep).push(t),
    decreases a.len(),
{
    let w = a + seq![sep] + t;
    let i = first_at(a, sep) as int;
    first_at_is_first(a, sep);
    assert forall|j: int| 0 <= j < i implies w[j] != sep by {
        assert(w[j] == a[j]);
    }
    first_at_unique(w, sep, i);
    if i >= a.len() {
        assert(w.take(i) =~= a);
        assert(w.skip(i + 1) =~= t);
        without_is_one_part(t, sep);
        assert(seq![a] + seq![t] =~= seq![a].push(t));
    } else {
        let b = a.skip(i + 1);
        split_of_more(b, t, sep);
        assert(w.skip(i + 1) =~= b + seq![sep] + t);
        assert(w.take(i) =~= a.take(i));
        assert(seq![a.take(i)] + split_on(b, sep).push(t) =~= (seq![a.take(i)] + split_on(b, sep)).push(t));
    }
}

/// Lower case changes the letters `A` to `Z` into `a` to `z` and nothing else.
pub proof fn lower_case_changes_letters_only(s: Seq<char>, i: int)
    requires
        0 <= i < s.len(),
    ensures
        lowered(s).len() == s.len(),
        'A' <= s[i] <= 'Z' ==> lowered(s)[i] as u32 == s[i] as u32 + 32,
        !('A' <= s[i] <= 'Z') ==> lowered(s)[i] == s[i],
        lowered(lowered(s)) == lowered(s),
{
    assert(lowered(lowered(s)) =~= lowered(s));
}

/// A string starts with its beginning and ends with its end.
pub proof fn strings_start_and_end_with_their_parts(a: Seq<char>, b: Seq<char>)
    ensures
        starts(a + b, a),
        ends(a + b, b),
        forall|t: Seq<char>| #[trigger] starts(a, t) ==> a == t + a.skip(t.len() as int),
        forall|t: Seq<char>| #[trigger] ends(a, t) ==> a == a.take(a.len() - t.len()) + t,
        occurs(a + b, a) && occurs(a + b, b),
{
    assert((a + b).take(a.len() as int) =~= a);
    assert((a + b).skip(a.len() as int) =~= b);
    assert forall|t: Seq<char>| #[trigger] starts(a, t) implies a == t + a.skip(t.len() as int) by {
        assert(a =~= a.take(t.len() as int) + a.skip(t.len() as int));
    }
    assert forall|t: Seq<char>| #[trigger] ends(a, t) implies a == a.take(a.len() - t.len()) + t by {
        assert(a =~= a.take(a.len() - t.len()) + a.skip(a.len() - t.len()));
    }
    assert((a + b).subrange(0, a.len() as int) =~= a);
    assert((a + b).subrange(a.len() as int, (a + b).len() as int) =~= b);
    assert(occurs_at(a + b, a, 0));
    assert(occurs_at(a + b, b, a.len() as int));
}

/// The last place of a character is one that has it, with none behind it.
pub proof fn last_at_is_last(s: Seq<char>, c: char)
    ensures
        last_at(s, c) >= 0 ==> s[last_at(s, c)] == c,
        forall|j: int| last_at(s, c) < j < s.len() ==> #[trigger] s[j] != c,
    decreases s.len(),
{
    last_at_bounds(s, c);
    if s.len() > 0 && s.last() != c {
        let t = s.drop_last();
        last_at_is_last(t, c);
        last_at_bounds(t, c);
        assert forall|j: int| last_at(s, c) < j < s.len() implies #[trigger] s[j] != c by {
            if j < t.len() {
                assert(t[j] == s[j]);
            }
        }
    }
}

} // verus!
