//! Safetensors: one 2-D float tensor as a table of single-precision numbers.
//!
//! A file is an 8-byte little-endian header length, a JSON header that maps
//! tensor names to their type, shape and place, and the data. Numbers are
//! carried as the bits of single-precision numbers.

use vstd::arithmetic::power2::pow2;
use vstd::prelude::*;
use crate::bytes::{as_u32, as_u64, le_value, le_values, pow256, read_all, read_le};
use crate::order::{ascending, in_order, lex_le, name_order, name_order_is_total, sorted_names};
use crate::static_table::read_words;
use crate::stop::copy_bytes;
use crate::text::{
    cat2, cat3, cat4, cat5, cat6, decimal, decimal_of, join_of, joined, same, unsigned_bracketed,
    unsigned_bracketed_of, views,
};

verus! {

/// The longest header that is read.
pub const MAX_HEADER: u64 = 104857600;

/// Tensor entry of the header.
pub struct Entry {
    pub name: String,
    pub dtype: String,
    pub shape: Vec<u64>,
    pub start: u64,
    pub end: u64,
}

/// A parsed safetensors file held in memory.
pub struct SafeTensors {
    header: Vec<Entry>,
    data: Vec<u8>,
}

/// The length of the header, or the refusal of one that is implausibly long.
pub open spec fn header_verdict(first: Seq<u8>) -> Result<nat, Seq<char>> {
    let n = le_value(first);
    if n > MAX_HEADER {
        Err("safetensors header of "@ + decimal(n) + " bytes is implausibly large"@)
    } else {
        Ok(n)
    }
}

/// The length of the header, from the first eight bytes of a file.
pub fn header_len(first: &Vec<u8>) -> (r: Result<usize, String>)
    requires
        first.len() == 8,
    ensures
        match header_verdict(first@) {
            Ok(n) => r is Ok && r->Ok_0 == n,
            Err(e) => r is Err && r->Err_0@ == e,
        },
{
    let n = read_le(first, 0, 8);
    proof {
        assert(first@.subrange(0, 8) =~= first@);
    }
    if n > MAX_HEADER {
        return Err(
            cat3(
                "safetensors header of ",
                decimal_of(n as u128).as_str(),
                " bytes is implausibly large",
            ),
        );
    }
    Ok(n as usize)
}

/// The names of entries.
pub open spec fn names_of(e: Seq<Entry>) -> Seq<Seq<char>> {
    Seq::new(e.len(), |i: int| e[i].name@)
}

/// Where the entry of this name stands; the number of entries if nowhere.
pub open spec fn entry_at(e: Seq<Entry>, name: Seq<char>, i: int) -> int
    decreases e.len() - i,
{
    if 0 <= i < e.len() && e[i].name@ != name {
        entry_at(e, name, i + 1)
    } else {
        i
    }
}

/// The entries without the one that holds metadata.
pub open spec fn tensors(e: Seq<Entry>, n: int) -> Seq<Entry>
    decreases n,
{
    if n <= 0 {
        Seq::empty()
    } else if e[n - 1].name@ == "__metadata__"@ {
        tensors(e, n - 1)
    } else {
        tensors(e, n - 1).push(e[n - 1])
    }
}

/// The bytes of an entry, where they lie inside the data.
pub open spec fn entry_bytes(e: Entry, data: Seq<u8>) -> Option<Seq<u8>> {
    if e.start <= e.end && e.end <= data.len() {
        Some(data.subrange(e.start as int, e.end as int))
    } else {
        None
    }
}

/// The refusal of an entry whose bytes are not as many as its shape needs.
pub open spec fn size_refusal(name: Seq<char>, bytes: nat, need: nat) -> Seq<char> {
    "tensor `"@ + name + "` has "@ + decimal(bytes) + " bytes, expected "@ + decimal(need)
}

/// Half-precision numbers as single-precision ones.
pub open spec fn halves(v: Seq<nat>) -> Seq<u32> {
    Seq::new(v.len(), |i: int| half_bits(v[i] as u16))
}

/// Truncated single-precision numbers as whole ones.
pub open spec fn brains(v: Seq<nat>) -> Seq<u32> {
    Seq::new(v.len(), |i: int| (v[i] * 65536) as u32)
}

/// The numbers of a tensor, or why it is refused.
pub open spec fn entry_table(e: Entry, data: Seq<u8>, name: Seq<char>) -> Result<Seq<u32>, Seq<char>> {
    if e.shape.len() != 2 {
        Err("tensor `"@ + name + "` has shape "@ + unsigned_bracketed(e.shape@) + "; expected 2-D"@)
    } else {
        let count = (e.shape@[0] * e.shape@[1]) as nat;
        match entry_bytes(e, data) {
            None => Err(
                "tensor `"@ + name + "` offsets "@ + decimal(e.start as nat) + ".."@ + (decimal(
                    e.end as nat,
                ) + " exceed the data section"@),
            ),
            Some(b) => if e.dtype@ == "F32"@ {
                if b.len() != count * 4 {
                    Err(size_refusal(name, b.len(), count * 4))
                } else {
                    Ok(as_u32(le_values(b, 4)))
                }
            } else if e.dtype@ == "F16"@ {
                if b.len() != count * 2 {
                    Err(size_refusal(name, b.len(), count * 2))
                } else {
                    Ok(halves(le_values(b, 2)))
                }
            } else if e.dtype@ == "BF16"@ {
                if b.len() != count * 2 {
                    Err(size_refusal(name, b.len(), count * 2))
                } else {
                    Ok(brains(le_values(b, 2)))
                }
            } else {
                Err(
                    "tensor `"@ + name + "` dtype "@ + e.dtype@
                        + " is not supported; use F32, F16, or BF16"@,
                )
            },
        }
    }
}

/// The numbers and the shape of the tensor of this name, or why it is refused.
pub open spec fn table_verdict(header: Seq<Entry>, data: Seq<u8>, name: Seq<char>) -> Result<
    (Seq<u32>, u64, u64),
    Seq<char>,
> {
    let at = entry_at(header, name, 0);
    if at >= header.len() {
        Err("tensor `"@ + name + "` not found; available: "@ + joined(in_order(names_of(header)), ", "@))
    } else {
        match entry_table(header[at], data, name) {
            Err(e) => Err(e),
            Ok(v) => Ok((v, header[at].shape@[0], header[at].shape@[1])),
        }
    }
}

impl SafeTensors {
    /// The tensors of the header.
    pub closed spec fn header(&self) -> Seq<Entry> {
        self.header@
    }

    /// The data section.
    pub closed spec fn data(&self) -> Seq<u8> {
        self.data@
    }

    /// A file with these header entries, each name once, and this data.
    /// The metadata entry is no tensor.
    pub fn open(entries: Vec<Entry>, data: Vec<u8>) -> (r: SafeTensors)
        ensures
            r.header() == tensors(entries@, entries.len() as int),
            r.data() == data@,
    {
        let ghost all = entries@;
        let mut entries = entries;
        let mut back: Vec<Entry> = Vec::new();
        while entries.len() > 0
            invariant
                entries@ == all.take(entries.len() as int),
                entries.len() <= all.len(),
                tensors(all, entries.len() as int) + back@.reverse() == tensors(
                    all,
                    all.len() as int,
                ),
            decreases entries.len(),
        {
            let ghost n = entries.len() as int;
            let ghost kept = back@;
            match entries.pop() {
                Some(e) => {
                    proof {
                        assert(e == all[n - 1]);
                    }
                    if !same(e.name.as_str(), "__metadata__") {
                        let ghost last = e;
                        back.push(e);
                        proof {
                            assert(back@.reverse() =~= seq![last] + kept.reverse());
                            let head = tensors(all, n - 1);
                            assert(head + (seq![last] + kept.reverse()) =~= head.push(last)
                                + kept.reverse());
                        }
                    }
                },
                None => {},
            }
            proof {
                assert(entries@ =~= all.take(n - 1));
            }
        }
        let ghost turned = back@;
        let mut header: Vec<Entry> = Vec::new();
        while back.len() > 0
            invariant
                header@ + back@.reverse() == turned.reverse(),
            decreases back.len(),
        {
            let ghost before = back@;
            let ghost done = header@;
            match back.pop() {
                Some(e) => {
                    let ghost last = e;
                    header.push(e);
                    proof {
                        assert(before.reverse() =~= seq![last] + back@.reverse());
                        assert(done + (seq![last] + back@.reverse()) =~= header@ + back@.reverse());
                    }
                },
                None => {},
            }
        }
        proof {
            assert(header@ + back@.reverse() =~= header@);
            assert(tensors(all, 0) + turned.reverse() =~= turned.reverse());
        }
        SafeTensors { header, data }
    }

    /// Tensor names, sorted.
    pub fn names(&self) -> (r: Vec<String>)
        ensures
            views(r@) == in_order(names_of(self.header())),
    {
        let mut out: Vec<String> = Vec::new();
        let mut i: usize = 0;
        while i < self.header.len()
            invariant
                i <= self.header.len(),
                views(out@) == names_of(self.header@).take(i as int),
            decreases self.header.len() - i,
        {
            let ghost before = views(out@);
            out.push(self.header[i].name.clone());
            i = i + 1;
            proof {
                assert(views(out@) =~= before.push(self.header@[i - 1].name@));
                assert(views(out@) =~= names_of(self.header@).take(i as int));
            }
        }
        proof {
            assert(views(out@) =~= names_of(self.header@));
        }
        sorted_names(&out)
    }

    /// Extract a 2-D tensor as single-precision numbers (row-major) and its
    /// shape. Supports `F32`, `F16`, and `BF16`.
    pub fn table_f32(&self, name: &str) -> (r: Result<(Vec<u32>, u64, u64), String>)
        requires
            self.addressable(name@),
        ensures
            match table_verdict(self.header(), self.data(), name@) {
                Ok(v) => r is Ok && r->Ok_0.0@ == v.0 && r->Ok_0.1 == v.1 && r->Ok_0.2 == v.2,
                Err(e) => r is Err && r->Err_0@ == e,
            },
    {
        let at = self.place_of(name);
        if at >= self.header.len() {
            return Err(
                cat4(
                    "tensor `",
                    name,
                    "` not found; available: ",
                    join_of(&self.names(), ", ").as_str(),
                ),
            );
        }
        let e = &self.header[at];
        match self.entry_table_of(e, name) {
            Err(m) => Err(m),
            Ok(v) => Ok((v, e.shape[0], e.shape[1])),
        }
    }

    /// The numbers of a tensor.
    fn entry_table_of(&self, e: &Entry, name: &str) -> (r: Result<Vec<u32>, String>)
        requires
            fits(e.shape@),
        ensures
            match entry_table(*e, self.data(), name@) {
                Ok(v) => r is Ok && r->Ok_0@ == v && e.shape.len() == 2,
                Err(m) => r is Err && r->Err_0@ == m,
            },
    {
        if e.shape.len() != 2 {
            return Err(
                cat5(
                    "tensor `",
                    name,
                    "` has shape ",
                    unsigned_bracketed_of(&e.shape).as_str(),
                    "; expected 2-D",
                ),
            );
        }
        proof {
            assert(0 <= e.shape@[0] * e.shape@[1]) by (nonlinear_arith)
                requires
                    0 <= e.shape@[0],
                    0 <= e.shape@[1],
            ;
        }
        let count: u128 = e.shape[0] as u128 * e.shape[1] as u128;
        if !(e.start <= e.end && e.end <= self.data.len() as u64) {
            return Err(
                cat6(
                    "tensor `",
                    name,
                    "` offsets ",
                    decimal_of(e.start as u128).as_str(),
                    "..",
                    cat2(decimal_of(e.end as u128).as_str(), " exceed the data section").as_str(),
                ),
            );
        }
        let b = copy_bytes(&self.data, e.start as usize, e.end as usize);
        let wide = same(e.dtype.as_str(), "F32");
        let half = same(e.dtype.as_str(), "F16");
        let brain = same(e.dtype.as_str(), "BF16");
        if !wide && !half && !brain {
            return Err(
                cat5(
                    "tensor `",
                    name,
                    "` dtype ",
                    e.dtype.as_str(),
                    " is not supported; use F32, F16, or BF16",
                ),
            );
        }
        let width: u128 = if wide {
            4
        } else {
            2
        };
        if b.len() as u128 != count * width {
            return Err(
                cat6(
                    "tensor `",
                    name,
                    "` has ",
                    decimal_of(b.len() as u128).as_str(),
                    " bytes, expected ",
                    decimal_of(count * width).as_str(),
                ),
            );
        }
        if wide {
            return Ok(read_words(&b));
        }
        let words = read_all(&b, 2);
        let mut out: Vec<u32> = Vec::new();
        let ghost want = if half {
            halves(le_values(b@, 2))
        } else {
            brains(le_values(b@, 2))
        };
        let mut i: usize = 0;
        while i < words.len()
            invariant
                i <= words.len(),
                words@ == as_u64(le_values(b@, 2)),
                want == (if half { halves(le_values(b@, 2)) } else { brains(le_values(b@, 2)) }),
                out@ == want.take(i as int),
            decreases words.len() - i,
        {
            proof {
                short_bound(b@, i as int);
            }
            let v: u16 = words[i] as u16;
            if half {
                out.push(f16_to_f32(v));
            } else {
                out.push(v as u32 * 65536);
            }
            i = i + 1;
            proof {
                assert(out@ =~= want.take(i as int));
            }
        }
        proof {
            assert(out@ =~= want);
        }
        Ok(out)
    }
}

/// Whether the table of a 2-D shape can be addressed.
pub open spec fn fits(shape: Seq<u64>) -> bool {
    shape.len() == 2 ==> shape[0] * shape[1] * 4 <= usize::MAX
}

/// Whether the table of a 2-D shape can be addressed.
pub fn fits_of(shape: &Vec<u64>) -> (r: bool)
    ensures
        r == fits(shape@),
{
    if shape.len() != 2 {
        return true;
    }
    proof {
        let a = shape@[0] as int;
        let b = shape@[1] as int;
        let m: int = 0xffff_ffff_ffff_ffff;
        assert(0 <= a * b <= m * m) by (nonlinear_arith)
            requires
                0 <= a <= m,
                0 <= b <= m,
        ;
    }
    let n: u128 = shape[0] as u128 * shape[1] as u128;
    n <= usize::MAX as u128 / 4
}

impl SafeTensors {
    /// Whether the table of the tensor of this name can be addressed.
    pub open spec fn addressable(&self, name: Seq<char>) -> bool {
        let at = entry_at(self.header(), name, 0);
        at < self.header().len() ==> fits(self.header()[at].shape@)
    }

    /// Whether the table of the tensor of this name can be addressed.
    pub fn is_addressable(&self, name: &str) -> (r: bool)
        ensures
            r == self.addressable(name@),
    {
        let at = self.place_of(name);
        at >= self.header.len() || fits_of(&self.header[at].shape)
    }

    /// Where the tensor of this name stands.
    fn place_of(&self, name: &str) -> (at: usize)
        ensures
            at == entry_at(self.header(), name@, 0),
            at <= self.header().len(),
    {
        let mut at: usize = 0;
        while at < self.header.len() && !same(self.header[at].name.as_str(), name)
            invariant
                at <= self.header.len(),
                entry_at(self.header@, name@, at as int) == entry_at(self.header@, name@, 0),
            decreases self.header.len() - at,
        {
            at = at + 1;
        }
        at
    }
}

/// The first `n` entries give their names, each once, but for the metadata's.
proof fn tensors_are_entries(e: Seq<Entry>, n: int)
    requires
        0 <= n <= e.len(),
        names_of(e).no_duplicates(),
    ensures
        names_of(tensors(e, n)).no_duplicates(),
        forall|name: Seq<char>|
            #[trigger] names_of(tensors(e, n)).contains(name) <==> name != "__metadata__"@ && names_of(
                e,
            ).take(n).contains(name),
    decreases n,
{
    let all = names_of(e);
    let first = all.take(n);
    let short = all.take(n - 1);
    let t = names_of(tensors(e, n));
    if n <= 0 {
        assert(first =~= Seq::<Seq<char>>::empty());
    } else {
        tensors_are_entries(e, n - 1);
        let before = names_of(tensors(e, n - 1));
        let last = e[n - 1].name@;
        assert(first =~= short.push(last));
        assert(!short.contains(last)) by {
            if short.contains(last) {
                let k = choose|k: int| 0 <= k < n - 1 && short[k] == last;
                assert(all[k] == all[n - 1]);
            }
        }
        if last != "__metadata__"@ {
            assert(t =~= before.push(last));
            assert(!before.contains(last));
        }
        assert forall|name: Seq<char>| #[trigger] t.contains(name) <==> name != "__metadata__"@
            && first.contains(name) by {
            if t.contains(name) && last != "__metadata__"@ {
                let k = choose|k: int| 0 <= k < t.len() && t[k] == name;
                if k < before.len() {
                    assert(before[k] == name);
                    assert(before.contains(name));
                    let m = choose|m: int| 0 <= m < n - 1 && short[m] == name;
                    assert(first[m] == name);
                } else {
                    assert(first[n - 1] == name);
                }
            }
            if t.contains(name) && last == "__metadata__"@ {
                assert(before.contains(name));
                let m = choose|m: int| 0 <= m < n - 1 && short[m] == name;
                assert(first[m] == name);
            }
            if name != "__metadata__"@ && first.contains(name) {
                let m = choose|m: int| 0 <= m < n && first[m] == name;
                if m < n - 1 {
                    assert(short[m] == name);
                    assert(before.contains(name));
                    let k = choose|k: int| 0 <= k < before.len() && before[k] == name;
                    assert(t[k] == name);
                } else {
                    assert(t[t.len() - 1] == name);
                }
            }
        }
    }
}

/// The names of the tensors of a file whose header names differ ascend strictly,
/// and are the names of the header other than that of its metadata.
pub proof fn tensor_names_ascend(e: Seq<Entry>)
    requires
        names_of(e).no_duplicates(),
    ensures
        ({
            let listed = in_order(names_of(tensors(e, e.len() as int)));
            &&& ascending(listed)
            &&& forall|name: Seq<char>|
                #[trigger] listed.contains(name) <==> name != "__metadata__"@ && names_of(e).contains(
                    name,
                )
        }),
{
    broadcast use vstd::seq_lib::group_to_multiset_ensures;

    let v = names_of(tensors(e, e.len() as int));
    tensors_are_entries(e, e.len() as int);
    assert(names_of(e).take(e.len() as int) =~= names_of(e));
    name_order_is_total();
    v.lemma_sort_by_ensures(name_order());
    let w = in_order(v);
    v.lemma_multiset_has_no_duplicates();
    assert(w.to_multiset() == v.to_multiset());
    assert forall|m: Seq<char>| w.to_multiset().contains(m) implies w.to_multiset().count(m) == 1 by {
        assert(v.to_multiset().count(m) == 1);
    }
    w.lemma_multiset_has_no_duplicates_conv();
    assert forall|i: int, j: int| 0 <= i < j < w.len() implies lex_le(
        #[trigger] w[i],
        #[trigger] w[j],
    ) && w[i] != w[j] by {
        assert(name_order()(w[i], w[j]));
    }
    assert forall|name: Seq<char>| #[trigger] w.contains(name) <==> name != "__metadata__"@
        && names_of(e).contains(name) by {
        assert(w.contains(name) <==> w.to_multiset().count(name) > 0);
        assert(v.contains(name) <==> v.to_multiset().count(name) > 0);
    }
}

/// Two bytes write a 16-bit number.
proof fn short_bound(b: Seq<u8>, i: int)
    requires
        0 <= i < le_values(b, 2).len(),
    ensures
        le_values(b, 2)[i] < 0x1_0000,
    decreases b.len(),
{
    reveal_with_fuel(pow256, 3);
    if b.len() >= 2 {
        crate::bytes::le_value_bound(b.take(2));
        if i > 0 {
            short_bound(b.skip(2), i - 1);
        }
    }
}

/// How often a fraction of a half-precision number is doubled to reach its leading one.
pub open spec fn doublings(f: nat) -> nat
    decreases 2048 - f,
{
    if f == 0 || f >= 1024 {
        0
    } else {
        1 + doublings(f * 2)
    }
}

/// The bits of the single-precision number that a half-precision one is.
pub open spec fn half_bits(h: u16) -> u32 {
    let sign = h as int / 32768;
    let exp = (h as int / 1024) % 32;
    let frac = h as int % 1024;
    let rest = if exp == 0 && frac == 0 {
        0
    } else if exp == 0 {
        let k = doublings(frac as nat);
        (113 - k) * 0x80_0000 + (frac * pow2(k) - 1024) * 8192
    } else if exp == 31 {
        255 * 0x80_0000 + frac * 8192
    } else {
        (exp + 112) * 0x80_0000 + frac * 8192
    };
    (sign * 0x8000_0000 + rest) as u32
}

/// A fraction reaches its leading one after at most ten doublings.
proof fn doublings_reach(f: nat)
    requires
        0 < f < 2048,
    ensures
        doublings(f) <= 10,
        1024 <= f * pow2(doublings(f)) < 2048,
    decreases 2048 - f,
{
    vstd::arithmetic::power2::lemma2_to64();
    if f < 1024 {
        doublings_reach(f * 2);
        let k = doublings(f * 2);
        vstd::arithmetic::power2::lemma_pow2_unfold(k + 1);
        assert(f * pow2(k + 1) == (f * 2) * pow2(k)) by (nonlinear_arith)
            requires
                pow2(k + 1) == 2 * pow2(k),
        ;
        doublings_few(f);
    } else {
        assert(f * pow2(0) == f) by (nonlinear_arith)
            requires
                pow2(0) == 1,
        ;
    }
}

/// A fraction is doubled at most ten times.
proof fn doublings_few(f: nat)
    requires
        0 < f,
    ensures
        doublings(f) <= 10,
{
    reveal_with_fuel(doublings, 12);
}

/// IEEE half to single, on bits.
pub fn f16_to_f32(h: u16) -> (r: u32)
    ensures
        r == half_bits(h),
{
    let sign: u32 = h as u32 / 32768;
    let exp: u32 = (h as u32 / 1024) % 32;
    let frac: u32 = h as u32 % 1024;
    if exp == 0 {
        if frac == 0 {
            return sign * 0x8000_0000;
        }
        let mut e: u32 = 113;
        let mut f: u32 = frac;
        let ghost mut k: nat = 0;
        proof {
            vstd::arithmetic::power2::lemma2_to64();
            assert(frac * pow2(0) == frac) by (nonlinear_arith)
                requires
                    pow2(0) == 1,
            ;
            doublings_reach(frac as nat);
        }
        while f < 1024
            invariant
                0 < frac < 1024,
                0 < f < 2048,
                f == frac * pow2(k),
                e == 113 - k,
                doublings(frac as nat) == k + doublings(f as nat),
                doublings(frac as nat) <= 10,
            decreases 2048 - f,
        {
            proof {
                vstd::arithmetic::power2::lemma_pow2_unfold(k + 1);
                assert(frac * pow2(k + 1) == f * 2) by (nonlinear_arith)
                    requires
                        pow2(k + 1) == 2 * pow2(k),
                        f == frac * pow2(k),
                ;
                k = k + 1;
            }
            f = f * 2;
            e = e - 1;
        }
        return sign * 0x8000_0000 + e * 0x80_0000 + (f - 1024) * 8192;
    }
    if exp == 31 {
        return sign * 0x8000_0000 + 0x7f80_0000 + frac * 8192;
    }
    sign * 0x8000_0000 + (exp + 112) * 0x80_0000 + frac * 8192
}

/// The size of a finite half-precision number, in units of 2 to the power of -24.
pub open spec fn half_size(h: u16) -> nat {
    let exp = (h as nat / 1024) % 32;
    let frac = h as nat % 1024;
    if exp == 0 {
        frac
    } else {
        (1024 + frac) * pow2((exp - 1) as nat)
    }
}

/// The size of a finite single-precision number, in units of 2 to the power of -149.
pub open spec fn single_size(b: u32) -> nat {
    let exp = (b as nat / 0x80_0000) % 256;
    let frac = b as nat % 0x80_0000;
    if exp == 0 {
        frac
    } else {
        (0x80_0000 + frac) * pow2((exp - 1) as nat)
    }
}

/// A finite half-precision number keeps its sign and its exact value: 125 is
/// the distance of the two units.
pub proof fn half_keeps_its_value(h: u16)
    requires
        (h as int / 1024) % 32 != 31,
    ensures
        single_size(half_bits(h)) == half_size(h) * pow2(125),
        half_bits(h) >= 0x8000_0000 <==> h >= 0x8000,
{
    let exp = (h as int / 1024) % 32;
    let frac = h as int % 1024;
    let sign = h as int / 32768;
    assert(h as int == sign * 32768 + exp * 1024 + frac);
    let b = half_bits(h);
    if exp == 0 && frac == 0 {
        assert(b as int == sign * 0x8000_0000);
        assert(0 * pow2(125) == 0) by (nonlinear_arith);
    } else if exp == 0 {
        let k = doublings(frac as nat);
        doublings_reach(frac as nat);
        let g = frac * pow2(k) - 1024;
        assert(b as int == sign * 0x8000_0000 + (113 - k) * 0x80_0000 + g * 8192);
        assert((b as nat / 0x80_0000) % 256 == 113 - k);
        assert(b as nat % 0x80_0000 == g * 8192);
        let p = pow2((112 - k) as nat);
        assert(0x80_0000 + g * 8192 == frac * pow2(k) * 8192);
        vstd::arithmetic::power2::lemma_pow2_adds(k, (112 - k) as nat);
        vstd::arithmetic::power2::lemma_pow2_adds(13, 112);
        vstd::arithmetic::power2::lemma2_to64();
        assert(frac * pow2(k) * 8192 * p == frac * pow2(125)) by (nonlinear_arith)
            requires
                pow2(k) * p == pow2(112),
                8192 * pow2(112) == pow2(125),
        ;
    } else {
        assert(b as int == sign * 0x8000_0000 + (exp + 112) * 0x80_0000 + frac * 8192);
        assert((b as nat / 0x80_0000) % 256 == exp + 112);
        assert(b as nat % 0x80_0000 == frac * 8192);
        let p = pow2((exp - 1) as nat);
        vstd::arithmetic::power2::lemma_pow2_adds((exp - 1) as nat, 112);
        vstd::arithmetic::power2::lemma_pow2_adds(13, 112);
        vstd::arithmetic::power2::lemma2_to64();
        assert((0x80_0000 + frac * 8192) * pow2((exp + 111) as nat) == (1024 + frac) * p * pow2(
            125,
        )) by (nonlinear_arith)
            requires
                p * pow2(112) == pow2((exp + 111) as nat),
                8192 * pow2(112) == pow2(125),
        ;
    }
}

/// A header is read up to 100 MiB: the length that eight bytes write is taken as it
/// is, and a longer one is refused.
pub proof fn a_header_has_the_length_written(n: nat)
    requires
        n < 0x1_0000_0000_0000_0000,
    ensures
        n <= 100 * 1024 * 1024 ==> header_verdict(crate::bytes::le_bytes(n, 8)) == Ok::<
            nat,
            Seq<char>,
        >(n),
        n > 100 * 1024 * 1024 ==> header_verdict(crate::bytes::le_bytes(n, 8)) is Err,
{
    reveal_with_fuel(pow256, 9);
    crate::bytes::le_round_trip(n, 8);
}

/// A tensor is the first entry of its name.
pub proof fn a_tensor_is_the_first_of_its_name(e: Seq<Entry>, name: Seq<char>, from: int)
    requires
        0 <= from <= e.len(),
    ensures
        from <= entry_at(e, name, from) <= e.len(),
        entry_at(e, name, from) < e.len() ==> e[entry_at(e, name, from)].name@ == name,
        forall|i: int| from <= i < entry_at(e, name, from) ==> (#[trigger] e[i]).name@ != name,
    decreases e.len() - from,
{
    if from < e.len() && e[from].name@ != name {
        a_tensor_is_the_first_of_its_name(e, name, from + 1);
    }
}

/// The tensors are the entries in their order, without the metadata.
pub proof fn every_entry_but_the_metadata_is_a_tensor(e: Seq<Entry>, n: int)
    requires
        0 <= n <= e.len(),
    ensures
        tensors(e, n) == e.take(n).filter(|x: Entry| x.name@ != "__metadata__"@),
    decreases n,
{
    reveal(Seq::filter);
    if n > 0 {
        every_entry_but_the_metadata_is_a_tensor(e, n - 1);
        assert(e.take(n).drop_last() =~= e.take(n - 1));
        assert(e.take(n).last() == e[n - 1]);
    } else {
        assert(e.take(0) =~= Seq::empty());
        assert(tensors(e, n) =~= e.take(n).filter(|x: Entry| x.name@ != "__metadata__"@));
    }
}

/// A table is read from an entry of two dimensions whose place lies in the data and
/// holds just its numbers, four bytes for a single-precision number and two for the
/// others. Number `i` of it is the number in its own bytes: as it is, as the half
/// that it writes, or as the upper half of a single-precision number.
pub proof fn a_table_is_the_numbers_of_its_entry(e: Entry, data: Seq<u8>, name: Seq<char>, i: int)
    requires
        e.shape.len() == 2,
    ensures
        ({
            let t = entry_table(e, data, name);
            let count = e.shape@[0] * e.shape@[1];
            let wide = e.dtype@ == "F32"@;
            let half = e.dtype@ == "F16"@;
            let brain = e.dtype@ == "BF16"@;
            let inside = e.start <= e.end <= data.len();
            let low = data[e.start + 2 * i];
            let high = data[e.start + 2 * i + 1];
            &&& t is Ok <==> inside && (wide && e.end - e.start == 4 * count || (half || brain)
                && e.end - e.start == 2 * count)
            &&& t is Ok ==> t->Ok_0.len() == count
            &&& t is Ok && wide && 0 <= i < count ==> t->Ok_0[i] == data[e.start + 4 * i] + 256
                * data[e.start + 4 * i + 1] + 0x1_0000 * data[e.start + 4 * i + 2] + 0x100_0000
                * data[e.start + 4 * i + 3]
            &&& t is Ok && half && 0 <= i < count ==> t->Ok_0[i] == half_bits(
                (low + 256 * high) as u16,
            )
            &&& t is Ok && brain && 0 <= i < count ==> t->Ok_0[i] == 0x1_0000 * low + 0x100_0000
                * high
        }),
{
    reveal_strlit("F32");
    reveal_strlit("F16");
    reveal_strlit("BF16");
    assert("F32"@[1] == '3' && "F16"@[1] == '1' && "BF16"@[0] == 'B' && "F32"@[0] == 'F'
        && "F16"@[0] == 'F');
    let count = e.shape@[0] * e.shape@[1];
    assert(count >= 0) by (nonlinear_arith)
        requires
            count == e.shape@[0] * e.shape@[1],
    ;
    if e.start <= e.end && e.end <= data.len() {
        let b = data.subrange(e.start as int, e.end as int);
        crate::bytes::le_values_len(b, 4);
        crate::bytes::le_values_len(b, 2);
        if 0 <= i < count && b.len() == 4 * count {
            crate::bytes::numbers_are_read_from_their_own_bytes(b, 4, i);
            reveal_with_fuel(le_value, 5);
            let own = b.subrange(i * 4, i * 4 + 4);
            assert(le_value(own) == own[0] + 256 * own[1] + 0x1_0000 * own[2] + 0x100_0000 * own[3]);
        }
        if 0 <= i < count && b.len() == 2 * count {
            crate::bytes::numbers_are_read_from_their_own_bytes(b, 2, i);
            reveal_with_fuel(le_value, 3);
            let own = b.subrange(i * 2, i * 2 + 2);
            assert(le_value(own) == own[0] + 256 * own[1]);
        }
    }
}

/// A half-precision number that is not finite stays what it is: an infinity one of
/// the same sign, and every other a number that is none, with its fraction kept.
pub proof fn a_half_that_is_not_finite_stays_so(h: u16)
    requires
        (h as int / 1024) % 32 == 31,
    ensures
        half_bits(h) >= 0x8000_0000 <==> h >= 0x8000,
        !crate::rank::is_finite(half_bits(h)),
        h % 1024 == 0 ==> half_bits(h) % 0x8000_0000 == 0x7f80_0000,
        half_bits(h) % 0x80_0000 == 8192 * (h % 1024),
{
    let sign = h as int / 32768;
    let frac = h as int % 1024;
    assert(half_bits(h) as int == sign * 0x8000_0000 + 255 * 0x80_0000 + frac * 8192);
}

/// A tensor that is not there is refused; one that is there is read from its first
/// entry, with its two dimensions in their order.
pub proof fn a_table_tells_its_dimensions(header: Seq<Entry>, data: Seq<u8>, name: Seq<char>)
    ensures
        ({
            let v = table_verdict(header, data, name);
            let at = entry_at(header, name, 0);
            &&& names_of(header).contains(name) <==> at < header.len()
            &&& !names_of(header).contains(name) ==> v is Err
            &&& at < header.len() ==> (v is Ok <==> entry_table(header[at], data, name) is Ok)
            &&& v matches Ok(t) ==> at < header.len() && t.1 == header[at].shape@[0] && t.2
                == header[at].shape@[1] && t.0 == entry_table(header[at], data, name)->Ok_0
        }),
{
    a_tensor_is_the_first_of_its_name(header, name, 0);
    let at = entry_at(header, name, 0);
    let names = names_of(header);
    if at < header.len() {
        assert(names[at] == name);
    } else if names.contains(name) {
        let k = choose|k: int| 0 <= k < names.len() && names[k] == name;
        assert(header[k].name@ == name);
    }
}

} // verus!
