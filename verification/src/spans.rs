//! Word-aligned spans from token labels.
//!
//! A word's label is that of its first sub-token, or of the highest-scoring
//! one. Consecutive words of one entity merge unless a `B-`, `U-` or `S-` tag
//! starts a new one. A group keeps the scores of its words; its own score is
//! their mean.

use vstd::prelude::*;
use crate::bytes::row_views;
use crate::rank::{greater, greater_of};
use crate::text::{same, views};
use crate::types::Aggregation;
use crate::wordpiece::WordSpan;

verus! {

/// The label with the highest of the first `n` scores, the first of equal ones.
pub open spec fn best_of(scores: Seq<u32>, n: int) -> int
    decreases n,
{
    if n <= 1 {
        0
    } else {
        let b = best_of(scores, n - 1);
        if greater(scores[n - 1], scores[b]) {
            n - 1
        } else {
            b
        }
    }
}

/// The best of `n` is one of them.
pub proof fn best_of_bounds(scores: Seq<u32>, n: int)
    requires
        1 <= n <= scores.len(),
    ensures
        0 <= best_of(scores, n) < n,
    decreases n,
{
    if n > 1 {
        best_of_bounds(scores, n - 1);
    }
}

/// The label of a column and its score.
pub open spec fn column_label(scores: Seq<u32>) -> (int, u32) {
    let b = best_of(scores, scores.len() as int);
    (b, scores[b])
}

/// The label with the highest score of a column, and that score.
pub fn token_label(scores: &Vec<u32>) -> (r: (usize, u32))
    requires
        scores.len() >= 1,
    ensures
        r.0 < scores.len(),
        (r.0 as int, r.1) == column_label(scores@),
{
    let mut best: usize = 0;
    let mut l: usize = 1;
    while l < scores.len()
        invariant
            1 <= l <= scores.len(),
            best < l,
            best == best_of(scores@, l as int),
        decreases scores.len() - l,
    {
        if greater_of(scores[l], scores[best]) {
            best = l;
        }
        l = l + 1;
    }
    (best, scores[best])
}

/// The label and score of a word: its first column's, or with `max` the best of
/// its first `n` columns.
pub open spec fn word_label(columns: Seq<Seq<u32>>, first: int, n: int, max: bool) -> (int, u32)
    decreases n,
{
    if n <= 1 || !max {
        column_label(columns[first])
    } else {
        let best = word_label(columns, first, n - 1, max);
        let next = column_label(columns[first + n - 1]);
        if greater(next.1, best.1) {
            next
        } else {
            best
        }
    }
}

/// The label and score of a word.
fn word_label_of(columns: &Vec<Vec<u32>>, first: usize, n: usize, max: bool, width: usize) -> (r: (
    usize,
    u32,
))
    requires
        first < columns.len(),
        first + n <= columns.len(),
        width >= 1,
        forall|c: int| 0 <= c < columns.len() ==> (#[trigger] columns@[c]).len() == width,
    ensures
        r.0 < width,
        (r.0 as int, r.1) == word_label(row_views(columns@), first as int, n as int, max),
{
    let mut best = token_label(&columns[first]);
    if max {
        let mut t: usize = 1;
        while t < n
            invariant
                1 <= t,
                n >= 1 ==> t <= n,
                n == 0 ==> t == 1,
                first + n <= columns.len(),
                first < columns.len(),
                width >= 1,
                max,
                forall|c: int| 0 <= c < columns.len() ==> (#[trigger] columns@[c]).len() == width,
                best.0 < width,
                (best.0 as int, best.1) == word_label(row_views(columns@), first as int, t as int, max),
            decreases n - t,
        {
            let next = token_label(&columns[first + t]);
            if greater_of(next.1, best.1) {
                best = next;
            }
            t = t + 1;
        }
    }
    best
}

/// The entity a tag names: the tag without its `B-`, `I-`, `L-`, `U-`, `E-` or `S-`.
pub open spec fn entity(label: Seq<char>) -> Seq<char> {
    if label.len() > 2 && label[1] == '-' && (label[0] == 'B' || label[0] == 'I' || label[0] == 'L'
        || label[0] == 'U' || label[0] == 'E' || label[0] == 'S') {
        label.skip(2)
    } else {
        label
    }
}

/// Whether a tag starts a new entity.
pub open spec fn begins(label: Seq<char>) -> bool {
    label.len() > 1 && (label[0] == 'B' || label[0] == 'U' || label[0] == 'S') && label[1] == '-'
}

/// The entity a tag names.
pub fn entity_of(label: &str) -> (r: String)
    ensures
        r@ == entity(label@),
{
    let n = label.unicode_len();
    if n > 2 {
        let a = label.get_char(0);
        if label.get_char(1) == '-' && (a == 'B' || a == 'I' || a == 'L' || a == 'U' || a == 'E' || a
            == 'S') {
            let tail = label.substring_char(2, n);
            proof {
                assert(label@.subrange(2, n as int) =~= label@.skip(2));
            }
            return tail.to_owned();
        }
    }
    label.to_owned()
}

/// Whether a tag starts a new entity.
fn begins_of(label: &str) -> (r: bool)
    ensures
        r == begins(label@),
{
    let n = label.unicode_len();
    if n > 1 {
        let a = label.get_char(0);
        (a == 'B' || a == 'U' || a == 'S') && label.get_char(1) == '-'
    } else {
        false
    }
}

/// A span: the bytes it covers, the label of its first word, and its words' scores.
pub struct Group {
    pub row: u32,
    pub byte_start: u64,
    pub byte_end: u64,
    pub label: u32,
    pub scores: Vec<u32>,
}

/// A group with its scores as a sequence.
pub struct GroupView {
    pub row: u32,
    pub byte_start: u64,
    pub byte_end: u64,
    pub label: u32,
    pub scores: Seq<u32>,
}

impl View for Group {
    type V = GroupView;

    open spec fn view(&self) -> GroupView {
        GroupView {
            row: self.row,
            byte_start: self.byte_start,
            byte_end: self.byte_end,
            label: self.label,
            scores: self.scores@,
        }
    }
}

/// The views of a sequence of groups.
pub open spec fn groups_view(v: Seq<Group>) -> Seq<GroupView> {
    Seq::new(v.len(), |i: int| v[i]@)
}

/// The groups closed so far and the one still open, with its entity.
pub struct Grouping {
    pub closed_groups: Seq<GroupView>,
    pub open_group: Option<(GroupView, Seq<char>)>,
}

/// The groups with the open one closed.
pub open spec fn close_all(g: Grouping) -> Seq<GroupView> {
    match g.open_group {
        Some(o) => g.closed_groups.push(o.0),
        None => g.closed_groups,
    }
}

/// The group of one word.
pub open spec fn fresh_group(row: u32, w: WordSpan, label: int, score: u32) -> GroupView {
    GroupView {
        row,
        byte_start: w.start,
        byte_end: w.end,
        label: label as u32,
        scores: seq![score],
    }
}

/// What one more word does to the groups.
pub open spec fn group_step(
    g: Grouping,
    row: u32,
    w: WordSpan,
    label: int,
    score: u32,
    name: Seq<char>,
    merge: bool,
) -> Grouping {
    let outside = name == "O"@;
    let fresh = fresh_group(row, w, label, score);
    if !merge {
        if outside {
            g
        } else {
            Grouping { closed_groups: g.closed_groups.push(fresh), open_group: None }
        }
    } else {
        match g.open_group {
            Some(o) => if outside {
                Grouping { closed_groups: close_all(g), open_group: None }
            } else if o.1 != entity(name) || begins(name) {
                Grouping { closed_groups: close_all(g), open_group: Some((fresh, entity(name))) }
            } else {
                Grouping {
                    closed_groups: g.closed_groups,
                    open_group: Some(
                        (
                            GroupView { byte_end: w.end, scores: o.0.scores.push(score), ..o.0 },
                            o.1,
                        ),
                    ),
                }
            },
            None => if outside {
                g
            } else {
                Grouping {
                    closed_groups: g.closed_groups,
                    open_group: Some((fresh, entity(name))),
                }
            },
        }
    }
}

/// How many of the words lie inside the columns: those before the first that does not.
pub open spec fn words_inside(words: Seq<WordSpan>, n: int, columns: int) -> int
    decreases n,
{
    if n <= 0 {
        0
    } else if words_inside(words, n - 1, columns) < n - 1 {
        words_inside(words, n - 1, columns)
    } else if words[n - 1].first_token + words[n - 1].n_tokens > columns {
        n - 1
    } else {
        n
    }
}

/// The groups after the first `n` words.
pub open spec fn grouped(
    row: u32,
    words: Seq<WordSpan>,
    columns: Seq<Seq<u32>>,
    labels: Seq<Seq<char>>,
    agg: Aggregation,
    n: int,
) -> Grouping
    decreases n,
{
    if n <= 0 {
        Grouping { closed_groups: Seq::empty(), open_group: None }
    } else {
        let w = words[n - 1];
        let l = word_label(
            columns,
            w.first_token as int,
            w.n_tokens as int,
            agg == Aggregation::Max,
        );
        group_step(
            grouped(row, words, columns, labels, agg, n - 1),
            row,
            w,
            l.0,
            l.1,
            labels[l.0],
            agg != Aggregation::Off,
        )
    }
}

/// The spans of one row. `columns` holds the label scores of each column;
/// words from the first that reaches behind the columns on are left out.
pub fn row_spans(
    row: u32,
    words: &Vec<WordSpan>,
    columns: &Vec<Vec<u32>>,
    labels: &Vec<String>,
    agg: Aggregation,
) -> (r: Vec<Group>)
    requires
        1 <= labels.len() <= u32::MAX,
        forall|c: int| 0 <= c < columns.len() ==> (#[trigger] columns@[c]).len() == labels.len(),
        forall|k: int| 0 <= k < words.len() ==> (#[trigger] words@[k]).n_tokens > 0,
    ensures
        groups_view(r@) == close_all(
            grouped(
                row,
                words@,
                row_views(columns@),
                views(labels@),
                agg,
                words_inside(words@, words.len() as int, columns.len() as int),
            ),
        ),
{
    let mut out: Vec<Group> = Vec::new();
    let mut pending: Option<(Group, String)> = None;
    let mut k: usize = 0;
    let ghost names = views(labels@);
    proof {
        assert(groups_view(out@) =~= Seq::empty());
    }
    while k < words.len()
        invariant_except_break
            k == words_inside(words@, k as int, columns.len() as int),
        invariant
            k <= words.len(),
            names == views(labels@),
            1 <= labels.len() <= u32::MAX,
            forall|c: int| 0 <= c < columns.len() ==> (#[trigger] columns@[c]).len() == labels.len(),
            forall|j: int| 0 <= j < words.len() ==> (#[trigger] words@[j]).n_tokens > 0,
            ({
                let g = grouped(row, words@, row_views(columns@), names, agg, k as int);
                &&& groups_view(out@) == g.closed_groups
                &&& pending is Some <==> g.open_group is Some
                &&& pending matches Some(p) ==> g.open_group == Some((p.0@, p.1@))
            }),
        ensures
            k == words_inside(words@, words.len() as int, columns.len() as int),
        decreases words.len() - k,
    {
        let w = words[k];
        let ghost g = grouped(row, words@, row_views(columns@), names, agg, k as int);
        if w.first_token as u64 + w.n_tokens as u64 > columns.len() as u64 {
            proof {
                inside_stays(words@, k + 1, words.len() as int, columns.len() as int);
            }
            break ;
        }
        let (label, score) = word_label_of(
            columns,
            w.first_token as usize,
            w.n_tokens as usize,
            agg == Aggregation::Max,
            labels.len(),
        );
        let name = labels[label].as_str();
        assert(names[label as int] == name@);
        let outside = same(name, "O");
        let ghost before = groups_view(out@);
        if agg == Aggregation::Off {
            if !outside {
                out.push(single(row, &w, label, score));
                proof {
                    grouping_off_keeps_none_open(row, words@, row_views(columns@), names, agg, k as int);
                    assert(groups_view(out@) =~= before.push(
                        fresh_group(row, w, label as int, score),
                    ));
                }
            }
        } else {
            let ent = entity_of(name);
            let starts = begins_of(name);
            match pending {
                Some((mut group, open_ent)) => {
                    if outside || !same(open_ent.as_str(), ent.as_str()) || starts {
                        let ghost closing = group@;
                        out.push(group);
                        proof {
                            assert(groups_view(out@) =~= before.push(closing));
                        }
                        if outside {
                            pending = None;
                        } else {
                            pending = Some((single(row, &w, label, score), ent));
                        }
                    } else {
                        group.byte_end = w.end;
                        group.scores.push(score);
                        pending = Some((group, open_ent));
                    }
                },
                None => {
                    if !outside {
                        pending = Some((single(row, &w, label, score), ent));
                    } else {
                        pending = None;
                    }
                },
            }
        }
        k = k + 1;
    }
    let ghost before = groups_view(out@);
    if let Some((group, _)) = pending {
        let ghost closing = group@;
        out.push(group);
        proof {
            assert(groups_view(out@) =~= before.push(closing));
        }
    }
    out
}

/// The group of one word.
fn single(row: u32, w: &WordSpan, label: usize, score: u32) -> (r: Group)
    requires
        label <= u32::MAX,
    ensures
        r@ == fresh_group(row, *w, label as int, score),
{
    let mut scores: Vec<u32> = Vec::new();
    scores.push(score);
    proof {
        assert(scores@ =~= seq![score]);
    }
    Group { row, byte_start: w.start, byte_end: w.end, label: label as u32, scores }
}

/// Once a word lies outside, the count of words inside stays.
proof fn inside_stays(words: Seq<WordSpan>, n: int, m: int, columns: int)
    requires
        0 <= n <= m,
        words_inside(words, n, columns) < n,
    ensures
        words_inside(words, m, columns) == words_inside(words, n, columns),
    decreases m,
{
    if n < m {
        inside_stays(words, n, m - 1, columns);
    }
}

/// Without merging no group stays open.
proof fn grouping_off_keeps_none_open(
    row: u32,
    words: Seq<WordSpan>,
    columns: Seq<Seq<u32>>,
    labels: Seq<Seq<char>>,
    agg: Aggregation,
    n: int,
)
    requires
        agg == Aggregation::Off,
    ensures
        grouped(row, words, columns, labels, agg, n).open_group is None,
    decreases n,
{
    if n > 0 {
        grouping_off_keeps_none_open(row, words, columns, labels, agg, n - 1);
    }
}

/// Every group has at least one word's score, and the groups together have no
/// more scores than there are words.
pub proof fn groups_count_their_words(
    row: u32,
    words: Seq<WordSpan>,
    columns: Seq<Seq<u32>>,
    labels: Seq<Seq<char>>,
    agg: Aggregation,
    n: int,
)
    requires
        0 <= n,
    ensures
        scores_total(close_all(grouped(row, words, columns, labels, agg, n))) <= n,
        forall|i: int|
            0 <= i < close_all(grouped(row, words, columns, labels, agg, n)).len()
                ==> (#[trigger] close_all(grouped(row, words, columns, labels, agg, n))[i]).scores.len()
                >= 1,
    decreases n,
{
    let g = grouped(row, words, columns, labels, agg, n);
    if n > 0 {
        groups_count_their_words(row, words, columns, labels, agg, n - 1);
        let h = grouped(row, words, columns, labels, agg, n - 1);
        let before = close_all(h);
        let after = close_all(g);
        if agg == Aggregation::Off {
            grouping_off_keeps_none_open(row, words, columns, labels, agg, n - 1);
            grouping_off_keeps_none_open(row, words, columns, labels, agg, n);
        }
        assert forall|i: int| 0 <= i < after.len() implies (#[trigger] after[i]).scores.len() >= 1 by {
            if i < before.len() {
                assert(before[i].scores.len() >= 1);
            }
        }
        if after.len() == before.len() + 1 {
            assert(after.drop_last() =~= before);
        } else if after.len() == before.len() && after.len() > 0 {
            assert(after.drop_last() =~= before.drop_last());
        }
    }
}

/// How many scores the groups have together.
pub open spec fn scores_total(g: Seq<GroupView>) -> nat
    decreases g.len(),
{
    if g.len() == 0 {
        0
    } else {
        scores_total(g.drop_last()) + g.last().scores.len()
    }
}

/// Whether a group is of this row, begins where one of the first `n` words begins
/// and ends where one of them ends.
pub open spec fn aligned(g: GroupView, row: u32, words: Seq<WordSpan>, n: int) -> bool {
    &&& g.row == row
    &&& exists|a: int| 0 <= a < n && (#[trigger] words[a]).start == g.byte_start
    &&& exists|b: int| 0 <= b < n && (#[trigger] words[b]).end == g.byte_end
}

/// A group that is aligned to the first words is aligned to more of them.
proof fn aligned_stays(g: GroupView, row: u32, words: Seq<WordSpan>, n: int)
    requires
        aligned(g, row, words, n),
    ensures
        aligned(g, row, words, n + 1),
{
    let a = choose|a: int| 0 <= a < n && (#[trigger] words[a]).start == g.byte_start;
    let b = choose|b: int| 0 <= b < n && (#[trigger] words[b]).end == g.byte_end;
    assert(words[a].start == g.byte_start);
    assert(words[b].end == g.byte_end);
}

/// Spans are word-aligned: each begins where a word begins and ends where one ends.
pub proof fn groups_are_word_aligned(
    row: u32,
    words: Seq<WordSpan>,
    columns: Seq<Seq<u32>>,
    labels: Seq<Seq<char>>,
    agg: Aggregation,
    n: int,
)
    requires
        0 <= n <= words.len(),
    ensures
        forall|i: int|
            0 <= i < close_all(grouped(row, words, columns, labels, agg, n)).len() ==> aligned(
                #[trigger] close_all(grouped(row, words, columns, labels, agg, n))[i],
                row,
                words,
                n,
            ),
    decreases n,
{
    if n > 0 {
        groups_are_word_aligned(row, words, columns, labels, agg, n - 1);
        let before = close_all(grouped(row, words, columns, labels, agg, n - 1));
        let after = close_all(grouped(row, words, columns, labels, agg, n));
        let w = words[n - 1];
        if agg == Aggregation::Off {
            grouping_off_keeps_none_open(row, words, columns, labels, agg, n - 1);
            grouping_off_keeps_none_open(row, words, columns, labels, agg, n);
        }
        assert forall|i: int| 0 <= i < after.len() implies aligned(
            #[trigger] after[i],
            row,
            words,
            n,
        ) by {
            if i < before.len() {
                aligned_stays(before[i], row, words, n - 1);
                if after[i] != before[i] {
                    assert(after[i].byte_start == before[i].byte_start);
                    assert(after[i].byte_end == w.end);
                    assert(words[n - 1].end == after[i].byte_end);
                }
            } else {
                assert(after[i].byte_start == w.start && after[i].byte_end == w.end);
                assert(words[n - 1].start == after[i].byte_start);
                assert(words[n - 1].end == after[i].byte_end);
            }
        }
    }
}

/// The tag of word `k`.
pub open spec fn word_tag(
    words: Seq<WordSpan>,
    columns: Seq<Seq<u32>>,
    labels: Seq<Seq<char>>,
    agg: Aggregation,
    k: int,
) -> Seq<char> {
    labels[word_at(words, columns, agg, k).0]
}

/// The label and score of word `k`.
pub open spec fn word_at(words: Seq<WordSpan>, columns: Seq<Seq<u32>>, agg: Aggregation, k: int) -> (
    int,
    u32,
) {
    word_label(
        columns,
        words[k].first_token as int,
        words[k].n_tokens as int,
        agg == Aggregation::Max,
    )
}

/// Whether a group is that of the words `run.0` to `run.1`: it covers their bytes, has
/// the label of the first and the score of each, and each names something.
pub open spec fn is_run(
    g: GroupView,
    run: (int, int),
    row: u32,
    words: Seq<WordSpan>,
    columns: Seq<Seq<u32>>,
    labels: Seq<Seq<char>>,
    agg: Aggregation,
) -> bool {
    &&& g.row == row
    &&& g.byte_start == words[run.0].start
    &&& g.byte_end == words[run.1 - 1].end
    &&& g.label == word_at(words, columns, agg, run.0).0 as u32
    &&& g.scores.len() == run.1 - run.0
    &&& forall|k: int|
        run.0 <= k < run.1 ==> g.scores[k - run.0] == (#[trigger] word_at(words, columns, agg, k)).1
    &&& forall|k: int| run.0 <= k < run.1 ==> #[trigger] word_tag(words, columns, labels, agg, k) != "O"@
}

/// Whether the words of a run belong together: all name the entity of the first, and
/// none but the first has a tag that starts a new one.
pub open spec fn belongs_together(
    run: (int, int),
    words: Seq<WordSpan>,
    columns: Seq<Seq<u32>>,
    labels: Seq<Seq<char>>,
    agg: Aggregation,
) -> bool {
    forall|k: int|
        run.0 < k < run.1 ==> {
            let tag = #[trigger] word_tag(words, columns, labels, agg, k);
            entity(tag) == entity(word_tag(words, columns, labels, agg, run.0)) && !begins(tag)
        }
}

/// Whether word `k` is not of the entity of word `k - 1`, or starts a new one.
pub open spec fn parts_from_the_last(
    words: Seq<WordSpan>,
    columns: Seq<Seq<u32>>,
    labels: Seq<Seq<char>>,
    agg: Aggregation,
    k: int,
) -> bool {
    ||| entity(word_tag(words, columns, labels, agg, k)) != entity(
        word_tag(words, columns, labels, agg, k - 1),
    )
    ||| begins(word_tag(words, columns, labels, agg, k))
}

/// The spans are the runs of the words that are not `O`, in order, each such word in
/// one of them. With merging, the words of a run name one entity and none but the
/// first begins one; where two runs touch, the second begins an entity of its own.
/// Without merging every run is one word. The runs are what is handed back.
pub proof fn spans_are_the_runs_of_one_entity(
    row: u32,
    words: Seq<WordSpan>,
    columns: Seq<Seq<u32>>,
    labels: Seq<Seq<char>>,
    agg: Aggregation,
    n: int,
) -> (runs: Seq<(int, int)>)
    requires
        0 <= n <= words.len(),
    ensures
        ({
            let groups = close_all(grouped(row, words, columns, labels, agg, n));
            &&& runs.len() == groups.len()
            &&& forall|i: int|
                0 <= i < runs.len() ==> 0 <= (#[trigger] runs[i]).0 < runs[i].1 <= n && is_run(
                    groups[i],
                    runs[i],
                    row,
                    words,
                    columns,
                    labels,
                    agg,
                )
            &&& forall|i: int, j: int|
                0 <= i < j < runs.len() ==> (#[trigger] runs[i]).1 <= (#[trigger] runs[j]).0
            &&& forall|k: int|
                0 <= k < n && #[trigger] word_tag(words, columns, labels, agg, k) != "O"@ ==> exists|i: int|
                    0 <= i < runs.len() && (#[trigger] runs[i]).0 <= k < runs[i].1
            &&& agg == Aggregation::Off ==> forall|i: int|
                0 <= i < runs.len() ==> (#[trigger] runs[i]).1 == runs[i].0 + 1
            &&& agg != Aggregation::Off ==> forall|i: int|
                0 <= i < runs.len() ==> belongs_together(#[trigger] runs[i], words, columns, labels, agg)
            &&& agg != Aggregation::Off ==> forall|i: int, j: int|
                0 <= i < j < runs.len() && (#[trigger] runs[i]).1 == (#[trigger] runs[j]).0
                    ==> parts_from_the_last(words, columns, labels, agg, runs[j].0)
        }),
{
    runs_so_far(row, words, columns, labels, agg, n)
}

/// The runs of the first `n` words, the last of them still open where a group is.
proof fn runs_so_far(
    row: u32,
    words: Seq<WordSpan>,
    columns: Seq<Seq<u32>>,
    labels: Seq<Seq<char>>,
    agg: Aggregation,
    n: int,
) -> (runs: Seq<(int, int)>)
    requires
        0 <= n <= words.len(),
    ensures
        ({
            let g = grouped(row, words, columns, labels, agg, n);
            let groups = close_all(g);
            &&& runs.len() == groups.len()
            &&& forall|i: int|
                0 <= i < runs.len() ==> 0 <= (#[trigger] runs[i]).0 < runs[i].1 <= n && is_run(
                    groups[i],
                    runs[i],
                    row,
                    words,
                    columns,
                    labels,
                    agg,
                )
            &&& forall|i: int, j: int|
                0 <= i < j < runs.len() ==> (#[trigger] runs[i]).1 <= (#[trigger] runs[j]).0
            &&& forall|k: int|
                0 <= k < n && #[trigger] word_tag(words, columns, labels, agg, k) != "O"@ ==> exists|i: int|
                    0 <= i < runs.len() && (#[trigger] runs[i]).0 <= k < runs[i].1
            &&& agg == Aggregation::Off ==> g.open_group is None && forall|i: int|
                0 <= i < runs.len() ==> (#[trigger] runs[i]).1 == runs[i].0 + 1
            &&& agg != Aggregation::Off ==> forall|i: int|
                0 <= i < runs.len() ==> belongs_together(#[trigger] runs[i], words, columns, labels, agg)
            &&& agg != Aggregation::Off ==> forall|i: int, j: int|
                0 <= i < j < runs.len() && (#[trigger] runs[i]).1 == (#[trigger] runs[j]).0
                    ==> parts_from_the_last(words, columns, labels, agg, runs[j].0)
            &&& agg != Aggregation::Off && g.open_group is Some ==> runs.len() > 0 && runs.last().1 == n
                && g.open_group.unwrap().1 == entity(word_tag(words, columns, labels, agg, runs.last().0))
            &&& agg != Aggregation::Off && g.open_group is None && n > 0 ==> word_tag(
                words,
                columns,
                labels,
                agg,
                n - 1,
            ) == "O"@
        }),
    decreases n,
{
    if n == 0 {
        Seq::empty()
    } else {
        let old_runs = runs_so_far(row, words, columns, labels, agg, n - 1);
        let h = grouped(row, words, columns, labels, agg, n - 1);
        let g = grouped(row, words, columns, labels, agg, n);
        let before = close_all(h);
        let after = close_all(g);
        let w = words[n - 1];
        let l = word_at(words, columns, agg, n - 1);
        let tag = word_tag(words, columns, labels, agg, n - 1);
        assert(g == group_step(h, row, w, l.0, l.1, labels[l.0], agg != Aggregation::Off));
        let joins = agg != Aggregation::Off && tag != "O"@ && h.open_group is Some && h.open_group.unwrap().1
            == entity(tag) && !begins(tag);
        let runs = if tag == "O"@ {
            old_runs
        } else if joins {
            old_runs.update(old_runs.len() - 1, (old_runs.last().0, n))
        } else {
            old_runs.push((n - 1, n))
        };
        if tag == "O"@ {
            assert(after =~= before);
        } else if joins {
            let m = old_runs.len() - 1;
            let first = old_runs[m].0;
            assert(is_run(before[m], old_runs[m], row, words, columns, labels, agg));
            assert(belongs_together(old_runs[m], words, columns, labels, agg));
            assert(after.len() == before.len());
            assert forall|i: int| 0 <= i < m implies after[i] == before[i] && runs[i] == old_runs[i] by {}
            assert(runs[m] == (first, n));
            assert(is_run(after[m], runs[m], row, words, columns, labels, agg));
            if first < n - 1 {
                assert(word_tag(words, columns, labels, agg, n - 2) != "O"@);
            }
            assert(belongs_together(runs[m], words, columns, labels, agg));
        } else {
            assert(after =~= before.push(fresh_group(row, w, l.0, l.1)));
            assert forall|i: int| 0 <= i < before.len() implies runs[i] == old_runs[i] by {}
            assert(runs[before.len() as int] == (n - 1, n));
            if agg != Aggregation::Off {
                assert forall|i: int, j: int|
                    0 <= i < j < runs.len() && (#[trigger] runs[i]).1 == (#[trigger] runs[j]).0 implies parts_from_the_last(
                    words,
                    columns,
                    labels,
                    agg,
                    runs[j].0,
                ) by {
                    if j == before.len() {
                        let m = old_runs.len() - 1;
                        assert(old_runs[i].1 == n - 1);
                        if i < m {
                            assert(old_runs[i].1 <= old_runs[m].0);
                        }
                        assert(is_run(before[m], old_runs[m], row, words, columns, labels, agg));
                        assert(word_tag(words, columns, labels, agg, n - 2) != "O"@);
                        assert(h.open_group is Some);
                        if old_runs[m].0 < n - 2 {
                            assert(belongs_together(old_runs[m], words, columns, labels, agg));
                        }
                    } else {
                        assert(old_runs[i].1 == old_runs[j].0);
                    }
                }
            }
        }
        assert forall|k: int|
            0 <= k < n && #[trigger] word_tag(words, columns, labels, agg, k) != "O"@ implies exists|i: int|
            0 <= i < runs.len() && (#[trigger] runs[i]).0 <= k < runs[i].1 by {
            if k == n - 1 {
                assert(runs[runs.len() - 1].0 <= k < runs[runs.len() - 1].1);
            } else {
                let i = choose|i: int| 0 <= i < old_runs.len() && (#[trigger] old_runs[i]).0 <= k < old_runs[i].1;
                assert(runs[i].0 <= k < runs[i].1);
            }
        }
        runs
    }
}

/// A tag of a letter of the scheme, a hyphen and a name names just that name, and
/// starts an entity where the letter is `B`, `U` or `S`. Every other tag is a name.
pub proof fn tags_are_read_by_their_letter(letter: char, name: Seq<char>, label: Seq<char>)
    ensures
        (letter == 'B' || letter == 'I' || letter == 'L' || letter == 'U' || letter == 'E' || letter
            == 'S') && name.len() > 0 ==> entity(seq![letter, '-'] + name) == name,
        begins(seq![letter, '-'] + name) <==> letter == 'B' || letter == 'U' || letter == 'S',
        entity(label) == label || label == seq![label[0], '-'] + entity(label) && (label[0] == 'B'
            || label[0] == 'I' || label[0] == 'L' || label[0] == 'U' || label[0] == 'E' || label[0]
            == 'S') && entity(label).len() > 0,
        begins(label) ==> label.len() >= 2 && label[1] == '-' && (label[0] == 'B' || label[0] == 'U'
            || label[0] == 'S'),
{
    let made = seq![letter, '-'] + name;
    assert(made[0] == letter && made[1] == '-');
    assert(made.skip(2) =~= name);
    if entity(label) != label {
        assert(label =~= seq![label[0], '-'] + label.skip(2));
    }
}

/// Of scores that are numbers, the label of a column has one that none exceeds, and
/// that every earlier one is below.
pub proof fn a_label_is_the_first_with_the_highest_score(scores: Seq<u32>)
    requires
        scores.len() >= 1,
        forall|i: int| 0 <= i < scores.len() ==> !crate::rank::is_nan(#[trigger] scores[i]),
    ensures
        ({
            let (b, top) = column_label(scores);
            &&& 0 <= b < scores.len()
            &&& top == scores[b]
            &&& forall|i: int| 0 <= i < scores.len() ==> !greater(#[trigger] scores[i], top)
            &&& forall|i: int| 0 <= i < b ==> greater(top, #[trigger] scores[i])
        }),
{
    highest_of(scores, scores.len() as int);
}

/// The best of the first `n` scores is the first that none of them exceeds.
proof fn highest_of(scores: Seq<u32>, n: int)
    requires
        1 <= n <= scores.len(),
        forall|i: int| 0 <= i < scores.len() ==> !crate::rank::is_nan(#[trigger] scores[i]),
    ensures
        0 <= best_of(scores, n) < n,
        forall|i: int| 0 <= i < n ==> !greater(#[trigger] scores[i], scores[best_of(scores, n)]),
        forall|i: int| 0 <= i < best_of(scores, n) ==> greater(scores[best_of(scores, n)], #[trigger] scores[i]),
    decreases n,
{
    if n > 1 {
        highest_of(scores, n - 1);
    }
}

/// A word has the label of its first column; with the aggregation by maximum it has that
/// of the first of its columns whose own best score none of the others exceeds.
pub proof fn a_word_has_the_label_of_one_of_its_columns(
    columns: Seq<Seq<u32>>,
    first: int,
    n: int,
    max: bool,
) -> (c: int)
    requires
        n >= 1,
        forall|i: int|
            first <= i < first + n ==> !crate::rank::is_nan((#[trigger] column_label(columns[i])).1),
    ensures
        first <= c < first + n,
        word_label(columns, first, n, max) == column_label(columns[c]),
        !max ==> c == first,
        max ==> forall|i: int|
            first <= i < first + n ==> !greater(
                (#[trigger] column_label(columns[i])).1,
                word_label(columns, first, n, max).1,
            ),
        max ==> forall|i: int|
            first <= i < c ==> greater(
                word_label(columns, first, n, max).1,
                (#[trigger] column_label(columns[i])).1,
            ),
    decreases n,
{
    if n == 1 || !max {
        first
    } else {
        let b = a_word_has_the_label_of_one_of_its_columns(columns, first, n - 1, max);
        if greater(column_label(columns[first + n - 1]).1, word_label(columns, first, n - 1, max).1) {
            first + n - 1
        } else {
            b
        }
    }
}

/// The words that are counted are all inside the columns, and the next one is not.
pub proof fn words_stop_at_the_first_outside(words: Seq<WordSpan>, n: int, columns: int)
    requires
        0 <= n <= words.len(),
    ensures
        0 <= words_inside(words, n, columns) <= n,
        forall|k: int|
            0 <= k < words_inside(words, n, columns) ==> (#[trigger] words[k]).first_token
                + words[k].n_tokens <= columns,
        words_inside(words, n, columns) < n ==> words[words_inside(words, n, columns)].first_token
            + words[words_inside(words, n, columns)].n_tokens > columns,
    decreases n,
{
    if n > 0 {
        words_stop_at_the_first_outside(words, n - 1, columns);
    }
}

} // verus!
