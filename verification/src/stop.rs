//! Generated text on its way out.
//!
//! Tokens give bytes. Bytes become text as soon as they are whole characters.
//! Text is held back as long as it could still be the beginning of a stop
//! string, so that no stop string is ever handed out in part.

use vstd::prelude::*;
use vstd::utf8::{
    is_char_boundary, is_char_boundary_iff_not_is_continuation_byte, length_of_first_scalar,
    pop_first_scalar, take_first_scalar, valid_first_scalar, valid_utf8, valid_utf8_concat,
    valid_utf8_split,
};

verus! {

/// Whether more bytes could complete these to one character.
pub open spec fn begins_char(b: Seq<u8>) -> bool {
    exists|more: Seq<u8>| #[trigger]
        valid_first_scalar(b + more) && length_of_first_scalar(b + more) > b.len()
}

/// Where the first byte ends, from the `n`th on, behind which no more bytes could
/// complete a character.
pub open spec fn unexpected_from(b: Seq<u8>, n: int) -> int
    decreases b.len() - n,
{
    if n >= b.len() || !begins_char(b.take(n)) {
        n
    } else {
        unexpected_from(b, n + 1)
    }
}

/// Bytes that begin no character, up to the byte that shows it.
pub open spec fn up_to_unexpected(b: Seq<u8>) -> Seq<u8> {
    b.take(unexpected_from(b, 1))
}

/// How many bytes of a broken sequence give way to one U+FFFD: those before the
/// unexpected byte, or that byte where it comes first.
pub open spec fn broken_len(b: Seq<u8>) -> int {
    let n = up_to_unexpected(b).len();
    if n <= 1 {
        1
    } else {
        n - 1
    }
}

/// `std::str::from_utf8` on bytes. Its error tells `valid_up_to`, the longest valid
/// prefix, and `error_len`: nothing where the end of the bytes was not expected,
/// else the length of the broken sequence behind the prefix. Claimed is that there
/// is no error exactly for valid UTF-8, that no longer prefix is valid, that nothing
/// is told exactly where more bytes could complete the character, and that the broken
/// sequence is what stands before the unexpected byte, or that byte where it comes
/// first.
#[verifier::external_body]
fn check_utf8(b: &[u8]) -> (r: Option<(usize, Option<usize>)>)
    ensures
        r is None <==> valid_utf8(b@),
        r matches Some(f) ==> {
            let rest = b@.skip(f.0 as int);
            &&& f.0 < b.len()
            &&& valid_utf8(b@.take(f.0 as int))
            &&& forall|n: int| f.0 < n <= b.len() ==> !#[trigger] valid_utf8(b@.take(n))
            &&& f.1 is None <==> begins_char(rest)
            &&& f.1 matches Some(k) ==> k == broken_len(rest)
        },
{
    match std::str::from_utf8(b) {
        Ok(_) => None,
        Err(e) => Some((e.valid_up_to(), e.error_len())),
    }
}

/// U+FFFD in UTF-8.
pub open spec fn replacement() -> Seq<u8> {
    seq![0xefu8, 0xbfu8, 0xbdu8]
}

/// The text that pending bytes give, and the bytes that still wait. Characters go
/// over as they are; an incomplete last one waits unless `flush` is set, when it
/// becomes U+FFFD; bytes that can never be valid become U+FFFD.
pub open spec fn drained(b: Seq<u8>, flush: bool) -> (Seq<u8>, Seq<u8>)
    decreases b.len(),
    via drained_shrinks
{
    if b.len() == 0 {
        (Seq::empty(), Seq::empty())
    } else if valid_first_scalar(b) {
        let rest = drained(pop_first_scalar(b), flush);
        (take_first_scalar(b) + rest.0, rest.1)
    } else if begins_char(b) {
        if flush {
            (replacement(), Seq::empty())
        } else {
            (Seq::empty(), b)
        }
    } else {
        let rest = drained(b.skip(broken_len(b)), flush);
        (replacement() + rest.0, rest.1)
    }
}

/// At least the first byte is looked at, and no byte behind the last.
proof fn unexpected_bounds(b: Seq<u8>, n: int)
    requires
        0 <= n <= b.len(),
    ensures
        n <= unexpected_from(b, n) <= b.len(),
    decreases b.len() - n,
{
    if n < b.len() && begins_char(b.take(n)) {
        unexpected_bounds(b, n + 1);
    }
}

/// A broken sequence is not empty and lies inside the bytes.
proof fn broken_bounds(b: Seq<u8>)
    requires
        b.len() > 0,
    ensures
        1 <= broken_len(b) <= b.len(),
        up_to_unexpected(b).len() <= b.len(),
        1 <= up_to_unexpected(b).len(),
{
    unexpected_bounds(b, 1);
}

#[via_fn]
proof fn drained_shrinks(b: Seq<u8>, flush: bool) {
    if b.len() > 0 {
        broken_bounds(b);
    }
}

/// Whether bytes that begin no character do is decided without what follows them.
proof fn broken_stays(b: Seq<u8>, c: Seq<u8>)
    requires
        b.len() > 0,
        !valid_first_scalar(b),
        !begins_char(b),
    ensures
        !valid_first_scalar(b + c),
        !begins_char(b + c),
        broken_len(b + c) == broken_len(b),
{
    let w = b + c;
    if valid_first_scalar(w) {
        if length_of_first_scalar(w) > b.len() {
            assert(begins_char(b));
        }
    }
    if begins_char(w) {
        let more = choose|more: Seq<u8>| #[trigger]
            valid_first_scalar(w + more) && length_of_first_scalar(w + more) > w.len();
        assert(b + (c + more) =~= w + more);
        assert(begins_char(b));
    }
    assert(b.take(b.len() as int) =~= b);
    unexpected_stays(b, c, 1);
    unexpected_bounds(b, 1);
    assert(up_to_unexpected(w) =~= up_to_unexpected(b));
}

/// The unexpected byte stays the same, whatever follows.
proof fn unexpected_stays(b: Seq<u8>, c: Seq<u8>, n: int)
    requires
        1 <= n <= b.len(),
        !begins_char(b),
    ensures
        unexpected_from(b + c, n) == unexpected_from(b, n),
    decreases b.len() - n,
{
    assert((b + c).take(n) =~= b.take(n));
    assert(b.take(b.len() as int) =~= b);
    if n < b.len() && begins_char(b.take(n)) {
        unexpected_stays(b, c, n + 1);
    }
}

/// A whole first character stays the first, whatever follows.
proof fn first_stays(b: Seq<u8>, c: Seq<u8>)
    requires
        valid_first_scalar(b),
    ensures
        valid_first_scalar(b + c),
        take_first_scalar(b + c) == take_first_scalar(b),
        pop_first_scalar(b + c) == pop_first_scalar(b) + c,
{
    assert(take_first_scalar(b + c) =~= take_first_scalar(b));
    assert(pop_first_scalar(b + c) =~= pop_first_scalar(b) + c);
}

/// Text behind which more bytes stand goes over as it is.
pub proof fn text_is_drained(t: Seq<u8>, b: Seq<u8>, flush: bool)
    requires
        valid_utf8(t),
    ensures
        drained(t + b, flush).0 == t + drained(b, flush).0,
        drained(t + b, flush).1 == drained(b, flush).1,
    decreases t.len(),
{
    if t.len() == 0 {
        assert(t + b =~= b);
        assert(t + drained(b, flush).0 =~= drained(b, flush).0);
    } else {
        first_stays(t, b);
        text_is_drained(pop_first_scalar(t), b, flush);
        let rest = drained(b, flush).0;
        assert(t =~= take_first_scalar(t) + pop_first_scalar(t));
        assert(take_first_scalar(t) + (pop_first_scalar(t) + rest) =~= t + rest);
    }
}

/// What stands for bytes that are no text is the three bytes of the character U+FFFD.
pub proof fn replacement_is_text()
    ensures
        valid_utf8(replacement()),
        replacement().len() == 3,
        vstd::utf8::decode_first_codepoint(replacement()) == 0xfffd,
{
    reveal_with_fuel(valid_utf8, 2);
    let r = replacement();
    assert((0xefu8 & 0x0f) as u32 == 15u32) by (bit_vector);
    assert((0xbfu8 & 0x3f) as u32 == 63u32) by (bit_vector);
    assert((0xbdu8 & 0x3f) as u32 == 61u32) by (bit_vector);
    assert((15u32 << 12) | (63u32 << 6) | 61u32 == 0xfffdu32) by (bit_vector);
    assert(vstd::utf8::decode_first_codepoint(r) == 0xfffd);
    assert(valid_first_scalar(r));
    assert(pop_first_scalar(r).len() == 0);
}

/// What is drained is text, and what waits is at most one unfinished character,
/// which nothing is after a flush.
pub proof fn drained_is_text(b: Seq<u8>, flush: bool)
    ensures
        valid_utf8(drained(b, flush).0),
        drained(b, flush).1.len() == 0 || begins_char(drained(b, flush).1),
        flush ==> drained(b, flush).1.len() == 0,
        drained(b, flush).1.len() > 0 ==> !valid_first_scalar(drained(b, flush).1),
    decreases b.len(),
{
    replacement_is_text();
    if b.len() == 0 {
    } else if valid_first_scalar(b) {
        drained_is_text(pop_first_scalar(b), flush);
        let first = take_first_scalar(b);
        reveal_with_fuel(valid_utf8, 2);
        assert(valid_first_scalar(first));
        assert(pop_first_scalar(first).len() == 0);
        assert(valid_utf8(first));
        valid_utf8_concat(first, drained(pop_first_scalar(b), flush).0);
    } else if begins_char(b) {
    } else {
        broken_bounds(b);
        drained_is_text(b.skip(broken_len(b)), flush);
        valid_utf8_concat(replacement(), drained(b.skip(broken_len(b)), flush).0);
    }
}

/// Draining what is there before more bytes come gives the same text as draining
/// all of them at once, and leaves the same bytes waiting.
pub proof fn draining_early_changes_nothing(b: Seq<u8>, c: Seq<u8>, flush: bool)
    ensures
        drained(b + c, flush).0 == drained(b, false).0 + drained(drained(b, false).1 + c, flush).0,
        drained(b + c, flush).1 == drained(drained(b, false).1 + c, flush).1,
    decreases b.len(),
{
    let early = drained(b, false);
    if b.len() == 0 {
        assert(b + c =~= c);
        assert(early.1 + c =~= c);
        assert(early.0 + drained(c, flush).0 =~= drained(c, flush).0);
    } else if valid_first_scalar(b) {
        first_stays(b, c);
        let p = pop_first_scalar(b);
        draining_early_changes_nothing(p, c, flush);
        let tail = drained(early.1 + c, flush).0;
        assert(take_first_scalar(b) + (drained(p, false).0 + tail) =~= early.0 + tail);
    } else if begins_char(b) {
        assert(early.0 + drained(b + c, flush).0 =~= drained(b + c, flush).0);
    } else {
        broken_stays(b, c);
        broken_bounds(b);
        let k = broken_len(b);
        assert((b + c).skip(k) =~= b.skip(k) + c);
        draining_early_changes_nothing(b.skip(k), c, flush);
        let tail = drained(early.1 + c, flush).0;
        assert(replacement() + (drained(b.skip(k), false).0 + tail) =~= early.0 + tail);
    }
}

/// The first `n` pieces, one behind the other.
pub open spec fn all_pieces(p: Seq<Seq<u8>>, n: int) -> Seq<u8>
    decreases n,
{
    if n <= 0 {
        Seq::empty()
    } else {
        all_pieces(p, n - 1) + p[n - 1]
    }
}

/// The text that goes out and the bytes that wait when the first `n` pieces come
/// one after the other and each is drained as it comes.
pub open spec fn fed(p: Seq<Seq<u8>>, n: int) -> (Seq<u8>, Seq<u8>)
    decreases n,
{
    if n <= 0 {
        (Seq::empty(), Seq::empty())
    } else {
        let before = fed(p, n - 1);
        let now = drained(before.1 + p[n - 1], false);
        (before.0 + now.0, now.1)
    }
}

/// However bytes are cut into pieces, draining each piece as it comes gives the
/// text of all bytes at once, and with the flush at the end nothing waits: no
/// character is split, lost or repeated.
pub proof fn cutting_changes_nothing(p: Seq<Seq<u8>>, n: int)
    requires
        0 <= n <= p.len(),
    ensures
        fed(p, n) == drained(all_pieces(p, n), false),
        fed(p, n).0 + drained(fed(p, n).1, true).0 == drained(all_pieces(p, n), true).0,
        drained(fed(p, n).1, true).1.len() == 0,
    decreases n,
{
    if n > 0 {
        cutting_changes_nothing(p, n - 1);
        draining_early_changes_nothing(all_pieces(p, n - 1), p[n - 1], false);
        assert(fed(p, n).0 =~= drained(all_pieces(p, n), false).0);
    }
    let b = all_pieces(p, n);
    draining_early_changes_nothing(b, Seq::empty(), true);
    assert(b + Seq::<u8>::empty() =~= b);
    assert(drained(b, false).1 + Seq::<u8>::empty() =~= drained(b, false).1);
    drained_is_text(fed(p, n).1, true);
}

/// Append `b[from..to]` to `out`.
pub fn append_bytes(out: &mut Vec<u8>, b: &Vec<u8>, from: usize, to: usize)
    requires
        from <= to <= b.len(),
    ensures
        final(out)@ == old(out)@ + b@.subrange(from as int, to as int),
{
    let ghost before = out@;
    let mut i: usize = from;
    proof {
        assert(out@ =~= before + b@.subrange(from as int, from as int));
    }
    while i < to
        invariant
            from <= i <= to <= b.len(),
            out@ == before + b@.subrange(from as int, i as int),
        decreases to - i,
    {
        out.push(b[i]);
        i = i + 1;
        proof {
            assert(out@ =~= before + b@.subrange(from as int, i as int));
        }
    }
}

/// A copy of `b[from..to]`.
pub fn copy_bytes(b: &Vec<u8>, from: usize, to: usize) -> (r: Vec<u8>)
    requires
        from <= to <= b.len(),
    ensures
        r@ == b@.subrange(from as int, to as int),
{
    let mut out: Vec<u8> = Vec::new();
    append_bytes(&mut out, b, from, to);
    proof {
        assert(out@ =~= b@.subrange(from as int, to as int));
    }
    out
}

/// Append U+FFFD.
fn append_replacement(out: &mut Vec<u8>)
    ensures
        final(out)@ == old(out)@ + replacement(),
{
    let ghost before = out@;
    out.push(0xef);
    out.push(0xbf);
    out.push(0xbd);
    proof {
        assert(out@ =~= before + replacement());
    }
}

/// Take the text out of the pending bytes.
pub fn drain_decodable(pending: &mut Vec<u8>, flush: bool) -> (text: Vec<u8>)
    ensures
        text@ == drained(old(pending)@, flush).0,
        final(pending)@ == drained(old(pending)@, flush).1,
        valid_utf8(text@),
{
    let mut text: Vec<u8> = Vec::new();
    let mut rest: Vec<u8> = copy_bytes(pending, 0, pending.len());
    let ghost whole = drained(pending@, flush);
    proof {
        assert(rest@ =~= pending@);
        assert(text@ + drained(rest@, flush).0 =~= whole.0);
        drained_is_text(pending@, flush);
    }
    loop
        invariant
            text@ + drained(rest@, flush).0 == whole.0,
            drained(rest@, flush).1 == whole.1,
            whole == drained(old(pending)@, flush),
            valid_utf8(whole.0),
        decreases rest.len(),
    {
        match check_utf8(rest.as_slice()) {
            None => {
                append_bytes(&mut text, &rest, 0, rest.len());
                proof {
                    assert(rest@.subrange(0, rest@.len() as int) =~= rest@);
                    text_is_drained(rest@, Seq::empty(), flush);
                    assert(rest@ + Seq::<u8>::empty() =~= rest@);
                }
                *pending = Vec::new();
                return text;
            },
            Some((valid, bad)) => {
                let ghost before = text@;
                let ghost head = rest@.take(valid as int);
                let ghost tail = rest@.skip(valid as int);
                append_bytes(&mut text, &rest, 0, valid);
                proof {
                    assert(rest@.subrange(0, valid as int) =~= head);
                    assert(rest@ =~= head + tail);
                    text_is_drained(head, tail, flush);
                    prefix_is_longest(rest@, valid as int);
                    broken_bounds(tail);
                }
                match bad {
                    Some(k) => {
                        append_replacement(&mut text);
                        let next = copy_bytes(&rest, valid + k, rest.len());
                        proof {
                            assert(next@ =~= tail.skip(k as int));
                            let end = drained(next@, flush).0;
                            assert(before + (head + (replacement() + end)) =~= text@ + end);
                        }
                        rest = next;
                    },
                    None => {
                        if flush {
                            append_replacement(&mut text);
                            proof {
                                assert(before + (head + replacement()) =~= text@);
                            }
                            *pending = Vec::new();
                        } else {
                            let next = copy_bytes(&rest, valid, rest.len());
                            proof {
                                assert(next@ =~= tail);
                                assert(before + (head + Seq::<u8>::empty()) =~= text@);
                            }
                            *pending = next;
                        }
                        return text;
                    },
                }
            },
        }
    }
}

/// No character stands behind the longest valid prefix.
proof fn prefix_is_longest(b: Seq<u8>, v: int)
    requires
        0 <= v < b.len(),
        valid_utf8(b.take(v)),
        forall|n: int| v < n <= b.len() ==> !#[trigger] valid_utf8(b.take(n)),
    ensures
        !valid_first_scalar(b.skip(v)),
{
    let rest = b.skip(v);
    if valid_first_scalar(rest) {
        let first = take_first_scalar(rest);
        let n = v + first.len();
        reveal_with_fuel(valid_utf8, 2);
        assert(valid_first_scalar(first));
        assert(pop_first_scalar(first).len() == 0);
        assert(valid_utf8(first));
        valid_utf8_concat(b.take(v), first);
        assert(b.take(v) + first =~= b.take(n));
        assert(!valid_utf8(b.take(n)));
    }
}

/// Whether `s` stands in `b` at `i`.
pub open spec fn stands_at(b: Seq<u8>, s: Seq<u8>, i: int) -> bool {
    0 <= i && i + s.len() <= b.len() && b.subrange(i, i + s.len()) == s
}

/// Whether a stop string stands in `b` at `i`; an empty one never does.
pub open spec fn stop_at(b: Seq<u8>, stops: Seq<Vec<u8>>, i: int) -> bool {
    exists|k: int|
        0 <= k < stops.len() && (#[trigger] stops[k])@.len() > 0 && stands_at(b, stops[k]@, i)
}

/// Whether no stop string stands in `b`.
pub open spec fn stop_free(b: Seq<u8>, stops: Seq<Vec<u8>>) -> bool {
    forall|i: int| !#[trigger] stop_at(b, stops, i)
}

/// Whether the first stop string of `b` stands at `i`.
pub open spec fn first_stop(b: Seq<u8>, stops: Seq<Vec<u8>>, i: int) -> bool {
    stop_at(b, stops, i) && forall|j: int| j < i ==> !#[trigger] stop_at(b, stops, j)
}

/// The length of the longest of the first `n` stop strings.
pub open spec fn longest_stop(stops: Seq<Vec<u8>>, n: int) -> nat
    decreases n,
{
    if n <= 0 {
        0
    } else {
        let rest = longest_stop(stops, n - 1);
        if stops[n - 1]@.len() > rest {
            stops[n - 1]@.len()
        } else {
            rest
        }
    }
}

/// How many bytes are held back: one less than the longest stop string has.
pub open spec fn hold_max(stops: Seq<Vec<u8>>) -> nat {
    let l = longest_stop(stops, stops.len() as int);
    if l == 0 {
        0
    } else {
        (l - 1) as nat
    }
}

/// No stop string is longer than the longest.
proof fn longest_stop_is_longest(stops: Seq<Vec<u8>>, n: int, k: int)
    requires
        0 <= k < n <= stops.len(),
    ensures
        stops[k]@.len() <= longest_stop(stops, n),
    decreases n,
{
    if k < n - 1 {
        longest_stop_is_longest(stops, n - 1, k);
    }
}

/// Bytes to hold back so no stop string can be partly delivered: the
/// longest stop string minus one byte (a match needs the new piece).
pub fn hold_max_of(stop: &Vec<Vec<u8>>) -> (r: usize)
    ensures
        r == hold_max(stop@),
{
    let mut top: usize = 0;
    let mut i: usize = 0;
    while i < stop.len()
        invariant
            i <= stop.len(),
            top == longest_stop(stop@, i as int),
        decreases stop.len() - i,
    {
        if stop[i].len() > top {
            top = stop[i].len();
        }
        i = i + 1;
    }
    if top == 0 {
        0
    } else {
        top - 1
    }
}

/// Whether a character begins or ends at byte `i`.
pub open spec fn is_boundary(b: Seq<u8>, i: int) -> bool {
    i <= 0 || i >= b.len() || !(0x80 <= b[i] && b[i] <= 0xbf)
}

/// The last character boundary at or before `i`.
pub open spec fn boundary_before(b: Seq<u8>, i: int) -> int
    decreases i,
{
    if i <= 0 || is_boundary(b, i) {
        i
    } else {
        boundary_before(b, i - 1)
    }
}

/// The last character boundary at or before `i`.
fn boundary_before_of(b: &Vec<u8>, i: usize) -> (r: usize)
    requires
        i <= b.len(),
    ensures
        r == boundary_before(b@, i as int),
        r <= i,
{
    let mut k: usize = i;
    while k > 0 && k < b.len() && 0x80 <= b[k] && b[k] <= 0xbf
        invariant
            k <= i <= b.len(),
            boundary_before(b@, k as int) == boundary_before(b@, i as int),
        decreases k,
    {
        k = k - 1;
    }
    k
}

/// Whether `s` stands in `b` at `i`.
fn stands_at_of(b: &Vec<u8>, s: &Vec<u8>, i: usize) -> (r: bool)
    requires
        i <= b.len(),
    ensures
        r == stands_at(b@, s@, i as int),
{
    if s.len() > b.len() - i {
        return false;
    }
    let mut k: usize = 0;
    while k < s.len()
        invariant
            k <= s.len(),
            i + s.len() <= b.len(),
            forall|j: int| 0 <= j < k ==> b@[i + j] == s@[j],
        decreases s.len() - k,
    {
        if b[i + k] != s[k] {
            proof {
                assert(b@.subrange(i as int, i + s.len())[k as int] == b@[i + k]);
            }
            return false;
        }
        k = k + 1;
    }
    proof {
        assert(b@.subrange(i as int, i + s.len()) =~= s@);
    }
    true
}

/// Whether a stop string stands in `b` at `i`.
fn stop_at_of(b: &Vec<u8>, stops: &Vec<Vec<u8>>, i: usize) -> (r: bool)
    requires
        i <= b.len(),
    ensures
        r == stop_at(b@, stops@, i as int),
{
    let mut k: usize = 0;
    while k < stops.len()
        invariant
            k <= stops.len(),
            i <= b.len(),
            forall|j: int|
                0 <= j < k ==> !((#[trigger] stops@[j])@.len() > 0 && stands_at(
                    b@,
                    stops@[j]@,
                    i as int,
                )),
        decreases stops.len() - k,
    {
        if stops[k].len() > 0 && stands_at_of(b, &stops[k], i) {
            assert(stops@[k as int]@.len() > 0);
            return true;
        }
        k = k + 1;
    }
    false
}

/// What a new piece of text does.
pub enum Pushed {
    /// This much text goes out; more may follow.
    Text(Vec<u8>),
    /// A stop string was met: this is the last text.
    Stopped(Vec<u8>),
}

/// How much of text that holds no stop string goes out: all but as much as a stop
/// string could need, cut between characters.
pub open spec fn released(whole: Seq<u8>, stops: Seq<Vec<u8>>) -> int {
    let spare = whole.len() - hold_max(stops);
    if spare <= 0 {
        0
    } else {
        boundary_before(whole, spare)
    }
}

/// Whether no stop string stands in the text so far, and as much of it is held back
/// as a stop string could need.
pub open spec fn settled(stops: Seq<Vec<u8>>, sent: Seq<u8>, held: Seq<u8>) -> bool {
    &&& stop_free(sent + held, stops)
    &&& sent.len() == 0 || held.len() >= hold_max(stops)
}

/// Text held back until it can no longer begin a stop string.
pub struct Held {
    hold: Vec<u8>,
    stops: Vec<Vec<u8>>,
    limit: usize,
    sent: Ghost<Seq<u8>>,
}

impl Held {
    /// The stop strings.
    pub closed spec fn stops(&self) -> Seq<Vec<u8>> {
        self.stops@
    }

    /// All text that went out.
    pub closed spec fn sent(&self) -> Seq<u8> {
        self.sent@
    }

    /// The text held back.
    pub closed spec fn held(&self) -> Seq<u8> {
        self.hold@
    }

    /// All text so far.
    pub open spec fn all(&self) -> Seq<u8> {
        self.sent() + self.held()
    }

    /// Whether the limit is that of the stop strings.
    pub closed spec fn sized(&self) -> bool {
        self.limit == hold_max(self.stops@)
    }

    /// Whether the text so far can be handed on.
    pub open spec fn wf(&self) -> bool {
        self.sized() && settled(self.stops(), self.sent(), self.held())
    }

    /// Nothing sent, nothing held.
    pub fn new(stops: Vec<Vec<u8>>) -> (r: Held)
        ensures
            r.wf(),
            r.stops() == stops@,
            r.sent() == Seq::<u8>::empty(),
            r.held() == Seq::<u8>::empty(),
    {
        let limit = hold_max_of(&stops);
        let r = Held { hold: Vec::new(), stops, limit, sent: Ghost(Seq::empty()) };
        proof {
            assert(r.sent@ + r.hold@ =~= Seq::<u8>::empty());
            assert forall|i: int| !#[trigger] stop_at(r.sent@ + r.hold@, r.stops@, i) by {
                if stop_at(r.sent@ + r.hold@, r.stops@, i) {
                    let k = choose|k: int|
                        0 <= k < r.stops@.len() && (#[trigger] r.stops@[k])@.len() > 0 && stands_at(
                            r.sent@ + r.hold@,
                            r.stops@[k]@,
                            i,
                        );
                    assert(false);
                }
            }
        }
        r
    }

    /// Take a new piece of text. As long as no stop string has been met, what
    /// may go out goes out. At the first stop string everything before it has
    /// gone out, and it and what follows it never will.
    pub fn push(&mut self, piece: &Vec<u8>) -> (r: Pushed)
        requires
            old(self).wf(),
        ensures
            final(self).stops() == old(self).stops(),
            final(self).sized(),
            match r {
                Pushed::Text(t) => {
                    let whole = old(self).held() + piece@;
                    let n = released(whole, old(self).stops());
                    &&& stop_free(old(self).all() + piece@, old(self).stops())
                    &&& final(self).wf()
                    &&& t@ == whole.take(n)
                    &&& final(self).sent() == old(self).sent() + t@
                    &&& final(self).held() == whole.skip(n)
                },
                Pushed::Stopped(t) => {
                    let at = (old(self).sent() + t@).len() as int;
                    &&& first_stop(old(self).all() + piece@, old(self).stops(), at)
                    &&& old(self).sent() + t@ == (old(self).all() + piece@).take(at)
                    &&& final(self).sent() == old(self).sent() + t@
                    &&& final(self).held() == Seq::<u8>::empty()
                },
            },
    {
        let ghost sent0 = self.sent@;
        let ghost hold0 = self.hold@;
        let ghost total = sent0 + hold0 + piece@;
        let ghost stops = self.stops@;
        let before = self.hold.len();
        append_bytes(&mut self.hold, piece, 0, piece.len());
        proof {
            assert(piece@.subrange(0, piece@.len() as int) =~= piece@);
            assert(sent0 + self.hold@ =~= total);
            assert(old(self).all() + piece@ =~= total);
        }
        let whole = self.hold.len();
        let from0: usize = if before > self.limit {
            before - self.limit
        } else {
            0
        };
        let from = boundary_before_of(&self.hold, from0);
        proof {
            assert forall|i: int| i < sent0.len() + from implies !#[trigger] stop_at(total, stops, i) by {
                no_early_stop(sent0, hold0, piece@, stops, i);
            }
        }
        let mut at: usize = from;
        while at < whole && !stop_at_of(&self.hold, &self.stops, at)
            invariant
                from <= at <= whole,
                whole == self.hold.len(),
                self.stops@ == stops,
                total == sent0 + self.hold@,
                forall|i: int| i < sent0.len() + at ==> !#[trigger] stop_at(total, stops, i),
            decreases whole - at,
        {
            proof {
                stop_shifts(sent0, self.hold@, stops, at as int);
            }
            at = at + 1;
        }
        proof {
            stop_shifts(sent0, self.hold@, stops, at as int);
        }
        if at < whole {
            let t = copy_bytes(&self.hold, 0, at);
            self.hold = Vec::new();
            self.sent = Ghost(sent0 + t@);
            proof {
                assert(sent0 + t@ =~= total.take(sent0.len() + at as int));
            }
            return Pushed::Stopped(t);
        }
        proof {
            assert forall|i: int| !#[trigger] stop_at(total, stops, i) by {
                if i >= sent0.len() + whole && stop_at(total, stops, i) {
                    let k = choose|k: int|
                        0 <= k < stops.len() && (#[trigger] stops[k])@.len() > 0 && stands_at(
                            total,
                            stops[k]@,
                            i,
                        );
                    assert(false);
                }
            }
        }
        let ghost text = self.hold@;
        if whole <= self.limit {
            proof {
                assert(text.take(0) =~= Seq::<u8>::empty());
                assert(text.skip(0) =~= text);
                assert(sent0 + Seq::<u8>::empty() =~= sent0);
            }
            return Pushed::Text(Vec::new());
        }
        let cut = boundary_before_of(&self.hold, whole - self.limit);
        let t = copy_bytes(&self.hold, 0, cut);
        let rest = copy_bytes(&self.hold, cut, whole);
        self.hold = rest;
        self.sent = Ghost(sent0 + t@);
        proof {
            assert(t@ =~= text.take(cut as int));
            assert(self.hold@ =~= text.skip(cut as int));
            assert(sent0 + t@ + self.hold@ =~= total);
        }
        Pushed::Text(t)
    }

    /// Take out what is still held back and the text behind it: the stream ends
    /// with them.
    pub fn flush(&mut self, end: &Vec<u8>) -> (t: Vec<u8>)
        ensures
            t@ == old(self).held() + end@,
            final(self).sent() == old(self).sent() + t@,
            final(self).held() == Seq::<u8>::empty(),
            final(self).stops() == old(self).stops(),
            old(self).sized() ==> final(self).sized(),
    {
        let ghost s = self.sent@;
        let mut t = copy_bytes(&self.hold, 0, self.hold.len());
        proof {
            assert(t@ =~= old(self).hold@);
            assert(end@.subrange(0, end@.len() as int) =~= end@);
        }
        append_bytes(&mut t, end, 0, end.len());
        self.hold = Vec::new();
        self.sent = Ghost(s + t@);
        t
    }

    /// Forget all text; the stop strings stay.
    pub fn clear(&mut self)
        ensures
            final(self).wf(),
            final(self).stops() == old(self).stops(),
            final(self).sent() == Seq::<u8>::empty(),
            final(self).held() == Seq::<u8>::empty(),
    {
        let limit = hold_max_of(&self.stops);
        self.limit = limit;
        self.hold = Vec::new();
        self.sent = Ghost(Seq::empty());
        proof {
            assert(self.sent@ + self.hold@ =~= Seq::<u8>::empty());
            assert forall|i: int| !#[trigger] stop_at(self.sent@ + self.hold@, self.stops@, i) by {
                if stop_at(self.sent@ + self.hold@, self.stops@, i) {
                    let k = choose|k: int|
                        0 <= k < self.stops@.len() && (#[trigger] self.stops@[k])@.len() > 0
                            && stands_at(self.sent@ + self.hold@, self.stops@[k]@, i);
                    assert(false);
                }
            }
        }
    }
}

/// A stop string stands in the held text where it stands in all text.
proof fn stop_shifts(sent: Seq<u8>, hold: Seq<u8>, stops: Seq<Vec<u8>>, i: int)
    requires
        0 <= i,
    ensures
        stop_at(hold, stops, i) == stop_at(sent + hold, stops, sent.len() + i),
{
    let total = sent + hold;
    assert forall|k: int| 0 <= k < stops.len() implies stands_at(hold, #[trigger] stops[k]@, i)
        == stands_at(total, stops[k]@, sent.len() + i) by {
        let n = stops[k]@.len();
        if i + n <= hold.len() {
            assert(hold.subrange(i, i + n) =~= total.subrange(sent.len() + i, sent.len() + i + n));
        }
    }
    if stop_at(hold, stops, i) {
        let k = choose|k: int|
            0 <= k < stops.len() && (#[trigger] stops[k])@.len() > 0 && stands_at(hold, stops[k]@, i);
        assert(stands_at(total, stops[k]@, sent.len() + i));
    }
    if stop_at(total, stops, sent.len() + i) {
        let k = choose|k: int|
            0 <= k < stops.len() && (#[trigger] stops[k])@.len() > 0 && stands_at(
                total,
                stops[k]@,
                sent.len() + i,
            );
        assert(stands_at(hold, stops[k]@, i));
    }
}

/// A stop string that the new piece completes begins in the piece or in the
/// last bytes before it.
proof fn no_early_stop(
    sent: Seq<u8>,
    hold: Seq<u8>,
    piece: Seq<u8>,
    stops: Seq<Vec<u8>>,
    i: int,
)
    requires
        stop_free(sent + hold, stops),
        sent.len() == 0 || hold.len() >= hold_max(stops),
        i + hold_max(stops) < sent.len() + hold.len() || i < sent.len(),
    ensures
        !stop_at(sent + hold + piece, stops, i),
{
    let total = sent + hold + piece;
    if stop_at(total, stops, i) {
        let k = choose|k: int|
            0 <= k < stops.len() && (#[trigger] stops[k])@.len() > 0 && stands_at(total, stops[k]@, i);
        let n = stops[k]@.len();
        longest_stop_is_longest(stops, stops.len() as int, k);
        assert(n <= hold_max(stops) + 1);
        assert(i + n <= sent.len() + hold.len());
        assert((sent + hold).subrange(i, i + n) =~= total.subrange(i, i + n));
        assert(stands_at(sent + hold, stops[k]@, i));
        assert(stop_at(sent + hold, stops, i));
    }
}

/// A beginning of text without a stop string holds none.
pub proof fn beginning_is_stop_free(all: Seq<u8>, stops: Seq<Vec<u8>>, n: int, bound: int)
    requires
        0 <= n <= all.len(),
        n <= bound,
        forall|i: int| i < bound ==> !#[trigger] stop_at(all, stops, i),
    ensures
        stop_free(all.take(n), stops),
{
    let sent = all.take(n);
    assert forall|i: int| !#[trigger] stop_at(sent, stops, i) by {
        if stop_at(sent, stops, i) {
            let k = choose|k: int|
                0 <= k < stops.len() && (#[trigger] stops[k])@.len() > 0 && stands_at(sent, stops[k]@, i);
            let s = stops[k]@;
            assert(all.subrange(i, i + s.len()) =~= sent.subrange(i, i + s.len()));
            assert(stands_at(all, s, i));
            assert(stop_at(all, stops, i));
        }
    }
}

/// Whether every stop string is text without U+FFFD.
pub open spec fn plain_stops(stops: Seq<Vec<u8>>) -> bool {
    forall|k: int|
        0 <= k < stops.len() ==> valid_utf8((#[trigger] stops[k])@) && forall|j: int|
            !#[trigger] stands_at(stops[k]@, replacement(), j)
}

/// U+FFFD behind text completes no stop string that does not hold it.
pub proof fn replacement_completes_no_stop(all: Seq<u8>, stops: Seq<Vec<u8>>)
    requires
        stop_free(all, stops),
        plain_stops(stops),
    ensures
        stop_free(all + replacement(), stops),
{
    let r = replacement();
    let w = all + r;
    let n = all.len() as int;
    assert forall|i: int| !#[trigger] stop_at(w, stops, i) by {
        if stop_at(w, stops, i) {
            let k = choose|k: int|
                0 <= k < stops.len() && (#[trigger] stops[k])@.len() > 0 && stands_at(w, stops[k]@, i);
            let s = stops[k]@;
            let e = i + s.len() - n;
            assert(forall|j: int| 0 <= j < s.len() ==> #[trigger] s[j] == w.subrange(i, i + s.len())[j]);
            if e <= 0 {
                assert(all.subrange(i, i + s.len()) =~= w.subrange(i, i + s.len()));
                assert(stands_at(all, s, i));
                assert(stop_at(all, stops, i));
            } else if i > n {
                assert(s[0] == w[i]);
                assert(s[0] == r[i - n]);
                assert(!valid_first_scalar(s));
            } else {
                let at = n - i;
                assert(s[at] == w[n]);
                assert(s[at] == 0xefu8);
                if e == 3 {
                    assert(s.subrange(at, at + 3) =~= r);
                    assert(stands_at(s, r, at));
                } else {
                    is_char_boundary_iff_not_is_continuation_byte(s, at);
                    assert(is_char_boundary(s, at));
                    valid_utf8_split(s, at);
                    let end = s.subrange(at, s.len() as int);
                    assert(end[0] == 0xefu8);
                    assert(end.len() < 3);
                    assert(!valid_first_scalar(end));
                }
            }
        }
    }
}

/// No stop string stands in no text.
pub proof fn nothing_is_stop_free(stops: Seq<Vec<u8>>)
    ensures
        stop_free(Seq::<u8>::empty(), stops),
{
    let b = Seq::<u8>::empty();
    assert forall|i: int| !#[trigger] stop_at(b, stops, i) by {
        if stop_at(b, stops, i) {
            let k = choose|k: int|
                0 <= k < stops.len() && (#[trigger] stops[k])@.len() > 0 && stands_at(b, stops[k]@, i);
            assert(false);
        }
    }
}

/// No more goes out than there is.
pub proof fn released_bounds(whole: Seq<u8>, stops: Seq<Vec<u8>>)
    ensures
        0 <= released(whole, stops) <= whole.len(),
        released(whole, stops) > 0 ==> whole.len() - released(whole, stops) >= hold_max(stops),
{
    let spare = whole.len() - hold_max(stops);
    if spare > 0 {
        boundary_bounds(whole, spare);
    }
}

/// A boundary at or before a place lies there.
proof fn boundary_bounds(b: Seq<u8>, i: int)
    requires
        0 <= i,
    ensures
        0 <= boundary_before(b, i) <= i,
    decreases i,
{
    if i > 0 && !is_boundary(b, i) {
        boundary_bounds(b, i - 1);
    }
}

/// Text of which what may go out went out is settled.
pub proof fn release_settles(stops: Seq<Vec<u8>>, sent: Seq<u8>, held: Seq<u8>, piece: Seq<u8>)
    requires
        settled(stops, sent, held),
        stop_free(sent + (held + piece), stops),
    ensures
        ({
            let whole = held + piece;
            let n = released(whole, stops);
            settled(stops, sent + whole.take(n), whole.skip(n))
        }),
{
    let whole = held + piece;
    let n = released(whole, stops);
    released_bounds(whole, stops);
    assert(sent + whole.take(n) + whole.skip(n) =~= sent + whole);
}

/// Where a stop string stands, one is the first.
pub proof fn some_stop_is_first(b: Seq<u8>, stops: Seq<Vec<u8>>)
    requires
        !stop_free(b, stops),
    ensures
        exists|i: int| first_stop(b, stops, i),
{
    let i = choose|i: int| stop_at(b, stops, i);
    earliest_stop(b, stops, i);
}

/// At or before a stop string stands the first.
proof fn earliest_stop(b: Seq<u8>, stops: Seq<Vec<u8>>, i: int)
    requires
        stop_at(b, stops, i),
    ensures
        exists|j: int| first_stop(b, stops, j),
    decreases i,
{
    if exists|j: int| j < i && stop_at(b, stops, j) {
        let j = choose|j: int| j < i && stop_at(b, stops, j);
        assert(0 <= j);
        earliest_stop(b, stops, j);
    } else {
        assert(first_stop(b, stops, i));
    }
}

/// A stop string that a new piece completes stands behind the text that went out.
pub proof fn stop_stands_behind(
    stops: Seq<Vec<u8>>,
    sent: Seq<u8>,
    held: Seq<u8>,
    piece: Seq<u8>,
    at: int,
)
    requires
        settled(stops, sent, held),
        stop_at(sent + held + piece, stops, at),
    ensures
        sent.len() <= at <= (sent + held + piece).len(),
{
    if at < sent.len() {
        no_early_stop(sent, held, piece, stops, at);
    }
}

/// There is one place at which the first stop string stands.
pub proof fn first_stop_is_unique(b: Seq<u8>, stops: Seq<Vec<u8>>, i: int, j: int)
    requires
        first_stop(b, stops, i),
        first_stop(b, stops, j),
    ensures
        i == j,
{
}

/// No stop string stands in the text that went out, which is the beginning of all
/// text so far.
pub proof fn sent_text_has_no_stop(h: Held)
    requires
        h.wf(),
    ensures
        stop_free(h.sent(), h.stops()),
        h.sent() == h.all().take(h.sent().len() as int),
{
    let sent = h.sent();
    let all = h.all();
    assert(sent =~= all.take(sent.len() as int));
    beginning_is_stop_free(all, h.stops(), sent.len() as int, all.len() as int);
}

/// A stop string that is not empty stops a text that holds it, wherever it stands:
/// such a text is not free of stop strings. Without stop strings nothing stops.
pub proof fn text_that_holds_a_stop_is_stopped(
    x: Seq<u8>,
    y: Seq<u8>,
    stops: Seq<Vec<u8>>,
    k: int,
)
    requires
        0 <= k < stops.len(),
        stops[k]@.len() > 0,
    ensures
        stop_at(x + stops[k]@ + y, stops, x.len() as int),
        !stop_free(x + stops[k]@ + y, stops),
        stop_free(x, Seq::empty()),
{
    let s = stops[k]@;
    let b = x + s + y;
    let i = x.len() as int;
    assert(b.subrange(i, i + s.len()) =~= s);
    assert(stands_at(b, s, i));
    assert forall|j: int| !#[trigger] stop_at(x, Seq::empty(), j) by {
        if stop_at(x, Seq::empty(), j) {
            let none = Seq::<Vec<u8>>::empty();
            let n = choose|n: int|
                0 <= n < none.len() && (#[trigger] none[n])@.len() > 0 && stands_at(x, none[n]@, j);
            assert(false);
        }
    }
}

/// What is held back is one byte less than the longest stop string: enough for each
/// of them, and just enough for one.
pub proof fn a_byte_less_than_the_longest_stop_is_held(stops: Seq<Vec<u8>>, k: int)
    requires
        0 <= k < stops.len(),
    ensures
        stops[k]@.len() <= hold_max(stops) + 1,
        hold_max(stops) == 0 || exists|j: int|
            0 <= j < stops.len() && (#[trigger] stops[j])@.len() == hold_max(stops) + 1,
        hold_max(Seq::empty()) == 0,
{
    longest_stop_is_longest(stops, stops.len() as int, k);
    longest_stop_is_one(stops, stops.len() as int);
}

/// The longest stop string is one of them.
proof fn longest_stop_is_one(stops: Seq<Vec<u8>>, n: int)
    requires
        0 <= n <= stops.len(),
    ensures
        longest_stop(stops, n) == 0 || exists|j: int|
            0 <= j < n && (#[trigger] stops[j])@.len() == longest_stop(stops, n),
    decreases n,
{
    if n > 0 {
        longest_stop_is_one(stops, n - 1);
        if longest_stop(stops, n) == longest_stop(stops, n - 1) {
            if longest_stop(stops, n) != 0 {
                let j = choose|j: int|
                    0 <= j < n - 1 && (#[trigger] stops[j])@.len() == longest_stop(stops, n - 1);
                assert(stops[j]@.len() == longest_stop(stops, n));
            }
        } else {
            assert(stops[n - 1]@.len() == longest_stop(stops, n));
        }
    }
}

/// As much goes out as may: up to the last place between two characters that leaves
/// enough behind, and all of it where nothing is held back.
pub proof fn as_much_goes_out_as_may(whole: Seq<u8>, stops: Seq<Vec<u8>>)
    ensures
        is_boundary(whole, released(whole, stops)),
        forall|j: int|
            released(whole, stops) < j <= whole.len() - hold_max(stops) ==> !#[trigger] is_boundary(
                whole,
                j,
            ),
        hold_max(stops) == 0 ==> released(whole, stops) == whole.len(),
        whole.len() <= hold_max(stops) ==> released(whole, stops) == 0,
{
    let spare = whole.len() - hold_max(stops);
    if spare > 0 {
        boundary_is_last(whole, spare);
    }
}

/// Between a place and the boundary before it stands no other.
proof fn boundary_is_last(b: Seq<u8>, i: int)
    requires
        0 <= i,
    ensures
        is_boundary(b, boundary_before(b, i)),
        forall|j: int| boundary_before(b, i) < j <= i ==> !#[trigger] is_boundary(b, j),
    decreases i,
{
    if i > 0 && !is_boundary(b, i) {
        boundary_is_last(b, i - 1);
    }
}

/// A byte that begins no character stands for one U+FFFD, and the bytes behind it
/// are read as if it were not there.
pub proof fn a_stray_byte_is_replaced(a: u8, rest: Seq<u8>, flush: bool)
    requires
        0x80 <= a <= 0xbf || a >= 0xf8,
    ensures
        drained(seq![a] + rest, flush).0 == replacement() + drained(rest, flush).0,
        drained(seq![a] + rest, flush).1 == drained(rest, flush).1,
{
    let b = seq![a] + rest;
    assert forall|more: Seq<u8>| !#[trigger] valid_first_scalar(b + more) by {
        assert((b + more)[0] == a);
    }
    assert forall|more: Seq<u8>| !#[trigger] valid_first_scalar(b.take(1) + more) by {
        assert((b.take(1) + more)[0] == a);
    }
    assert(b + Seq::<u8>::empty() =~= b);
    assert(!valid_first_scalar(b));
    assert(!begins_char(b));
    assert(!begins_char(b.take(1)));
    assert(unexpected_from(b, 1) == 1);
    assert(broken_len(b) == 1);
    assert(b.skip(1) =~= rest);
}

} // verus!
