//! The shared libraries of a directory, loaded before a CUDA context is made. They
//! are loaded in passes until every one is in, so the order within the directory
//! does not matter; a library that never loads is an error that names it and the
//! loader's reason. Opening a library is the caller's.

use vstd::prelude::*;
use crate::cuda::is_library;
use crate::error::{plain, Class, Error};
use crate::order::{in_order, sorted_names};
use crate::text::{cat2, cat3, cat4, holds, join_of, joined, occurs, starts, views};

verus! {

/// A file of the directory.
#[derive(Debug)]
pub struct DirEntry {
    pub name: String,
    pub is_file: bool,
}

/// Whether an entry is a library.
pub open spec fn is_loaded_entry(e: DirEntry) -> bool {
    starts(e.name@, "lib"@) && occurs(e.name@, ".so"@) && e.is_file
}

/// The names of the libraries among the first `n` entries.
pub open spec fn library_names(v: Seq<DirEntry>, n: int) -> Seq<Seq<char>>
    decreases n,
{
    if n <= 0 {
        Seq::empty()
    } else if is_loaded_entry(v[n - 1]) {
        library_names(v, n - 1).push(v[n - 1].name@)
    } else {
        library_names(v, n - 1)
    }
}

/// The path of a file of the directory.
pub open spec fn path_in(dir: Seq<char>, name: Seq<char>) -> Seq<char> {
    if dir.len() == 0 || dir.last() == '/' {
        dir + name
    } else {
        dir + "/"@ + name
    }
}

/// The path of a file of the directory.
pub fn path_in_of(dir: &str, name: &str) -> (r: String)
    ensures
        r@ == path_in(dir@, name@),
{
    let n = dir.unicode_len();
    if n == 0 {
        cat2(dir, name)
    } else if dir.get_char(n - 1) == '/' {
        cat2(dir, name)
    } else {
        cat3(dir, "/", name)
    }
}

/// The names of the first `n` files that were not opened, in order.
pub open spec fn left_over(names: Seq<Seq<char>>, opened: Seq<Option<String>>, n: int) -> Seq<Seq<char>>
    decreases n,
{
    if n <= 0 {
        Seq::empty()
    } else if opened[n - 1] is Some {
        left_over(names, opened, n - 1).push(names[n - 1])
    } else {
        left_over(names, opened, n - 1)
    }
}

/// Why the first `n` files that were not opened were not, each with its path.
pub open spec fn reasons(
    dir: Seq<char>,
    names: Seq<Seq<char>>,
    opened: Seq<Option<String>>,
    n: int,
) -> Seq<Seq<char>>
    decreases n,
{
    if n <= 0 {
        Seq::empty()
    } else {
        match opened[n - 1] {
            Some(why) => reasons(dir, names, opened, n - 1).push(
                path_in(dir, names[n - 1]) + ": "@ + why@,
            ),
            None => reasons(dir, names, opened, n - 1),
        }
    }
}

/// The libraries that are still to be loaded.
#[derive(Debug)]
pub struct Preload {
    pub dir: String,
    /// Names of files in the directory, in order.
    pub pending: Vec<String>,
}

impl Preload {
    /// The libraries of a directory.
    pub fn start(dir: &str, entries: &Vec<DirEntry>) -> (r: Result<Preload, Error>)
        ensures
            ({
                let names = library_names(entries@, entries.len() as int);
                if names.len() == 0 {
                    r is Err && r->Err_0@ == plain(
                        Class::DeviceUnavailable,
                        "cuda_lib_dir `"@ + dir@ + "` holds no shared libraries"@,
                    )
                } else {
                    r is Ok && r->Ok_0.dir@ == dir@ && views(r->Ok_0.pending@) == in_order(names)
                }
            }),
    {
        let mut names: Vec<String> = Vec::new();
        let mut i: usize = 0;
        proof {
            assert(views(names@) =~= Seq::empty());
        }
        while i < entries.len()
            invariant
                i <= entries.len(),
                views(names@) == library_names(entries@, i as int),
            decreases entries.len() - i,
        {
            let e = &entries[i];
            if is_library(e.name.as_str()) && e.is_file {
                let ghost before = views(names@);
                names.push(e.name.clone());
                proof {
                    assert(views(names@) =~= before.push(e.name@));
                }
            }
            i = i + 1;
        }
        if names.len() == 0 {
            return Err(
                Error::plain(
                    Class::DeviceUnavailable,
                    cat3("cuda_lib_dir `", dir, "` holds no shared libraries"),
                ),
            );
        }
        Ok(Preload { dir: dir.to_owned(), pending: sorted_names(&names) })
    }

    /// Take the outcome of a pass: for each pending library nothing where it was
    /// opened, or the loader's reason. What was not opened is tried again, unless
    /// nothing was; the result is whether all are in.
    pub fn pass(&mut self, opened: &Vec<Option<String>>) -> (r: Result<bool, Error>)
        requires
            opened.len() == old(self).pending.len(),
        ensures
            final(self).dir == old(self).dir,
            ({
                let n = opened.len() as int;
                let left = left_over(views(old(self).pending@), opened@, n);
                &&& views(final(self).pending@) == left
                &&& if left.len() == 0 {
                    r == Ok::<bool, Error>(true)
                } else if left.len() == n {
                    r is Err && r->Err_0@ == plain(
                        Class::DeviceUnavailable,
                        "could not preload CUDA libraries from `"@ + old(self).dir@ + "`: "@ + joined(
                            reasons(old(self).dir@, views(old(self).pending@), opened@, n),
                            "; "@,
                        ),
                    )
                } else {
                    r == Ok::<bool, Error>(false)
                }
            }),
    {
        let before = self.pending.len();
        let ghost names = views(self.pending@);
        let mut next: Vec<String> = Vec::new();
        let mut errors: Vec<String> = Vec::new();
        let mut i: usize = 0;
        proof {
            assert(views(next@) =~= Seq::empty());
            assert(views(errors@) =~= Seq::empty());
        }
        while i < opened.len()
            invariant
                i <= opened.len(),
                opened.len() == self.pending.len(),
                *self == *old(self),
                names == views(self.pending@),
                views(next@) == left_over(names, opened@, i as int),
                views(errors@) == reasons(self.dir@, names, opened@, i as int),
            decreases opened.len() - i,
        {
            if let Some(why) = &opened[i] {
                let name = self.pending[i].clone();
                let path = path_in_of(self.dir.as_str(), name.as_str());
                let said = cat3(path.as_str(), ": ", why.as_str());
                let ghost was_next = views(next@);
                let ghost was_errors = views(errors@);
                let ghost shown = said@;
                errors.push(said);
                next.push(name);
                proof {
                    assert(names[i as int] == self.pending@[i as int]@);
                    assert(views(next@) =~= was_next.push(names[i as int]));
                    assert(views(errors@) =~= was_errors.push(shown));
                }
            }
            i = i + 1;
        }
        self.pending = next;
        if self.pending.len() == 0 {
            return Ok(true);
        }
        if self.pending.len() == before {
            return Err(
                Error::plain(
                    Class::DeviceUnavailable,
                    cat4(
                        "could not preload CUDA libraries from `",
                        self.dir.as_str(),
                        "`: ",
                        join_of(&errors, "; ").as_str(),
                    ),
                ),
            );
        }
        Ok(false)
    }
}

/// A pass never leaves more than it had, and fewer where it opened one: loading ends.
pub proof fn passes_shrink(names: Seq<Seq<char>>, opened: Seq<Option<String>>, n: int, k: int)
    requires
        0 <= n <= opened.len(),
        opened.len() == names.len(),
    ensures
        left_over(names, opened, n).len() <= n,
        0 <= k < n && opened[k] is None ==> left_over(names, opened, n).len() < n,
    decreases n,
{
    if n > 0 {
        passes_shrink(names, opened, n - 1, k);
    }
}

/// The first option, from place `i` on, that is not known, counted from one.
pub open spec fn unknown_from(options: Seq<Seq<char>>, known: Seq<Seq<char>>, i: int) -> Option<int>
    decreases options.len() - i,
{
    if i < 0 || i >= options.len() {
        None
    } else if !known.contains(options[i]) {
        Some(i + 1)
    } else {
        unknown_from(options, known, i + 1)
    }
}

/// The field of the first option that is not known: its place, counted from one.
pub fn unknown_option(options: &Vec<String>, known: &Vec<String>) -> (r: Option<usize>)
    ensures
        match unknown_from(views(options@), views(known@), 0) {
            Some(field) => r is Some && r->Some_0 == field,
            None => r is None,
        },
{
    let mut i: usize = 0;
    while i < options.len()
        invariant
            i <= options.len(),
            unknown_from(views(options@), views(known@), i as int) == unknown_from(
                views(options@),
                views(known@),
                0,
            ),
        decreases options.len() - i,
    {
        if !holds(known, options[i].as_str()) {
            return Some(i + 1);
        }
        i = i + 1;
    }
    None
}

/// A library is a file whose name begins with `lib` and has `.so` somewhere behind
/// that; a directory of such a name is none.
pub proof fn a_library_is_a_file_of_its_name(e: DirEntry, x: Seq<char>, y: Seq<char>)
    ensures
        e.is_file && e.name@ == "lib"@ + x + ".so"@ + y ==> is_loaded_entry(e),
        is_loaded_entry(e) ==> e.is_file && e.name@.len() >= 6 && e.name@.take(3) == "lib"@,
        !occurs(e.name@, ".so"@) ==> !is_loaded_entry(e),
{
    reveal_strlit("lib");
    reveal_strlit(".so");
    let name = e.name@;
    if name == "lib"@ + x + ".so"@ + y {
        assert(name =~= "lib"@ + (x + ".so"@ + y));
        crate::text::strings_start_and_end_with_their_parts("lib"@, x + ".so"@ + y);
        let at: int = 3 + x.len() as int;
        assert(name.subrange(at, at + 3) =~= ".so"@);
        assert(crate::text::occurs_at(name, ".so"@, at));
    }
    if is_loaded_entry(e) {
        let at = choose|i: int| crate::text::occurs_at(name, ".so"@, i);
        assert(name.subrange(at, at + 3)[0] == '.');
        assert(name.take(3)[0] == 'l' && name.take(3)[1] == 'i' && name.take(3)[2] == 'b');
    }
}

/// The libraries of a directory are its entries that are libraries, in their order.
pub proof fn every_library_is_listed(v: Seq<DirEntry>, n: int)
    requires
        0 <= n <= v.len(),
    ensures
        library_names(v, n) == v.take(n).filter(|e: DirEntry| is_loaded_entry(e)).map_values(
            |e: DirEntry| e.name@,
        ),
    decreases n,
{
    reveal(Seq::filter);
    let kept = v.take(n).filter(|e: DirEntry| is_loaded_entry(e));
    if n > 0 {
        every_library_is_listed(v, n - 1);
        assert(v.take(n).drop_last() =~= v.take(n - 1));
        assert(v.take(n).last() == v[n - 1]);
        assert(library_names(v, n) =~= kept.map_values(|e: DirEntry| e.name@));
    } else {
        assert(v.take(0) =~= Seq::empty());
        assert(library_names(v, n) =~= kept.map_values(|e: DirEntry| e.name@));
    }
}

/// A file's path is its directory, one slash and its name, whether or not the
/// directory is written with the slash.
pub proof fn a_path_has_one_slash(dir: Seq<char>, name: Seq<char>)
    requires
        dir.len() > 0,
        dir.last() != '/',
    ensures
        path_in(dir, name) == dir + seq!['/'] + name,
        path_in(dir + seq!['/'], name) == path_in(dir, name),
        path_in(Seq::empty(), name) == name,
{
    reveal_strlit("/");
    assert("/"@ =~= seq!['/']);
    assert((dir + seq!['/']).last() == '/');
    assert(Seq::<char>::empty() + name =~= name);
}

/// What is left over is what was not opened, each name in its order, with the
/// reason of that very library beside its path: entry `k` is library `at[k]`.
pub proof fn what_was_not_opened_is_left_over(
    dir: Seq<char>,
    names: Seq<Seq<char>>,
    opened: Seq<Option<String>>,
    n: int,
) -> (at: Seq<int>)
    requires
        0 <= n <= opened.len(),
    ensures
        at.len() == left_over(names, opened, n).len(),
        at.len() == reasons(dir, names, opened, n).len(),
        forall|k: int|
            0 <= k < at.len() ==> 0 <= (#[trigger] at[k]) < n && opened[at[k]] is Some && left_over(
                names,
                opened,
                n,
            )[k] == names[at[k]] && reasons(dir, names, opened, n)[k] == path_in(dir, names[at[k]])
                + ": "@ + opened[at[k]]->0@,
        forall|j: int, k: int| 0 <= j < k < at.len() ==> #[trigger] at[j] < #[trigger] at[k],
        forall|i: int| 0 <= i < n && (#[trigger] opened[i]) is Some ==> at.contains(i),
    decreases n,
{
    if n <= 0 {
        Seq::empty()
    } else {
        let at = what_was_not_opened_is_left_over(dir, names, opened, n - 1);
        if opened[n - 1] is None {
            at
        } else {
            let more = at.push(n - 1);
            let left = left_over(names, opened, n);
            let why = reasons(dir, names, opened, n);
            assert forall|i: int| 0 <= i < n && (#[trigger] opened[i]) is Some implies more.contains(
                i,
            ) by {
                if i < n - 1 {
                    assert(at.contains(i));
                    let k = choose|k: int| 0 <= k < at.len() && at[k] == i;
                    assert(more[k] == i);
                } else {
                    assert(more[at.len() as int] == i);
                }
            }
            assert forall|k: int| 0 <= k < more.len() implies 0 <= (#[trigger] more[k]) < n
                && opened[more[k]] is Some && left[k] == names[more[k]] && why[k] == path_in(
                dir,
                names[more[k]],
            ) + ": "@ + opened[more[k]]->0@ by {
                if k < at.len() {
                    assert(more[k] == at[k]);
                }
            }
            assert forall|j: int, k: int| 0 <= j < k < more.len() implies #[trigger] more[j]
                < #[trigger] more[k] by {
                assert(more[j] == at[j]);
                if k < at.len() {
                    assert(more[k] == at[k]);
                }
            }
            more
        }
    }
}

/// The option that is told is the first that is not known, counted from one; none
/// is told where all are known.
pub proof fn the_first_unknown_option_is_told(options: Seq<Seq<char>>, known: Seq<Seq<char>>, i: int)
    requires
        0 <= i <= options.len(),
    ensures
        unknown_from(options, known, i) matches Some(f) ==> i < f <= options.len() && !known.contains(
            options[f - 1],
        ) && forall|k: int| i <= k < f - 1 ==> known.contains(#[trigger] options[k]),
        unknown_from(options, known, i) is None ==> forall|k: int|
            i <= k < options.len() ==> known.contains(#[trigger] options[k]),
    decreases options.len() - i,
{
    if i < options.len() && known.contains(options[i]) {
        the_first_unknown_option_is_told(options, known, i + 1);
    }
}

} // verus!
