//! Rows of a WordPiece tokenizer: the ids stand for what the tokenizer gives.

use turbo_serving::error::Class;
use turbo_serving::types::Truncate;
use turbo_serving::wordpiece::{
    collect_words, encode_row, window_of, word_ranges, RowScratch, Vocab, WordSpan, TRUNC_ERROR,
    TRUNC_LONGEST_FIRST, WORDPIECE_ERR_INVALID_ARGUMENT, WORDPIECE_ERR_NOT_FOUND, WORDPIECE_OK,
};

/// Long compounds split into many sub-tokens, so a budget boundary lands inside a
/// word for most sequence lengths.
const TEXT: &str = "Konstantinopel Bartholomaeus Wolfgangsee Schwarzenegger Donaudampfschifffahrt \
Kraftfahrzeughaftpflichtversicherung Ada Lovelace visited Berlin";

/// Runs that the normalizer drops entirely sit between real words.
const INVISIBLE: &str = "New \u{200d} York \u{ad} is \u{301} here \u{fe0f} today";

fn vocab() -> Vocab {
    Vocab::load(WORDPIECE_OK, true, 101, 102, 0, "tokenizer.json").expect("the special tokens are there")
}

/// The tokens of a word: one for each started three letters; none for a run that
/// the normalizer drops.
fn tokens(word: &str) -> Vec<i32> {
    if word.chars().all(|c| !c.is_ascii()) {
        return Vec::new();
    }
    word.as_bytes().chunks(3).map(|c| c.iter().fold(0i32, |h, b| h * 256 + *b as i32)).collect()
}

fn words_of(text: &str) -> (Vec<(usize, usize)>, Vec<usize>, Vec<i32>) {
    let ranges = word_ranges(text.as_bytes());
    let mut all = Vec::new();
    let mut counts = Vec::new();
    for (a, b) in &ranges {
        let t = tokens(&text[*a..*b]);
        counts.push(t.len());
        all.extend(t);
    }
    (ranges, counts, all)
}

fn encoded(text: &str, truncate: Truncate, seq: u32) -> (u32, Vec<i32>, Vec<WordSpan>) {
    let (ranges, counts, all) = words_of(text);
    let mut ids = vec![0i32; seq as usize];
    let mut mask = vec![0i32; seq as usize];
    let live = encode_row(&vocab(), 0, &Vec::new(), &all, truncate, seq, seq, &mut ids, &mut mask).expect("encode");
    let w = window_of(0, 0, all.len(), truncate, seq).expect("a window");
    let spans = collect_words(&ranges, &counts, 0, w.skip, w.take);
    (live, ids, spans)
}

#[test]
fn encodes_cls_text_sep_pad() {
    let v = vocab();
    let mut ids = vec![0; 8];
    let mut mask = vec![0; 8];
    let scratch = RowScratch::new(8);
    assert!(scratch.ids.len() >= 8);
    let n = encode_row(&v, 0, &Vec::new(), &vec![7592, 2088], Truncate::Model, 8, 8, &mut ids, &mut mask).unwrap();
    assert_eq!(n, 4);
    assert_eq!(ids[0], 101);
    assert_eq!(ids[3], 102);
    assert_eq!(&mask[..8], &[1, 1, 1, 1, 0, 0, 0, 0]);
    assert!(ids[4..].iter().all(|&i| i == v.pad_id()));
    assert_eq!(ids[1..3], [7592, 2088]);
}

#[test]
fn truncation_policies() {
    let v = vocab();
    let mut ids = vec![0; 4];
    let mut mask = vec![0; 4];
    let text = vec![2028, 2048, 2093, 2176];
    let none = Vec::new();
    let e = encode_row(&v, 0, &none, &text, Truncate::Off, 4, 4, &mut ids, &mut mask).unwrap_err();
    assert_eq!(e.class, Class::Capacity);
    encode_row(&v, 0, &none, &text, Truncate::Right, 4, 4, &mut ids, &mut mask).unwrap();
    let right = ids.clone();
    encode_row(&v, 0, &none, &text, Truncate::Left, 4, 4, &mut ids, &mut mask).unwrap();
    assert_ne!(right[1..3], ids[1..3], "left truncation keeps the tail");
    assert_eq!(right, [101, 2028, 2048, 102]);
    assert_eq!(ids, [101, 2093, 2176, 102]);
}

#[test]
fn word_spans_split_punctuation() {
    let text = "Berlin, Germany.";
    let ranges = word_ranges(text.as_bytes());
    let counts = vec![1usize, 1, 1, 1];
    let all = vec![4068, 1010, 2762, 1012];
    let mut ids = vec![0; 16];
    let mut mask = vec![0; 16];
    encode_row(&vocab(), 0, &Vec::new(), &all, Truncate::Model, 16, 16, &mut ids, &mut mask).unwrap();
    let w = window_of(0, 0, 4, Truncate::Model, 16).unwrap();
    let words = collect_words(&ranges, &counts, 0, w.skip, w.take);
    let texts: Vec<&str> = words.iter().map(|w| &text[w.start as usize..w.end as usize]).collect();
    assert_eq!(texts, vec!["Berlin", ",", "Germany", "."]);
    assert_eq!(words[0].first_token, 1);
    let total: u32 = words.iter().map(|w| w.n_tokens).sum();
    assert_eq!(total + 2, mask.iter().sum::<i32>() as u32);
}

#[test]
fn a_packed_pair_is_taken_or_refused() {
    // A pair that the packer took is taken; one that it had no room for is refused
    // under the policy that cuts nothing.
    assert_ne!(TRUNC_LONGEST_FIRST, TRUNC_ERROR);
    assert!(Vocab::pack_pair(WORDPIECE_OK, 12, 12, 12, 12, 12, 12).is_ok());
    let e = Vocab::pack_pair(WORDPIECE_ERR_INVALID_ARGUMENT, 12, 12, 12, 12, 12, 6).unwrap_err();
    assert_eq!(e.class, Class::Capacity);
    let e = Vocab::pack_pair(WORDPIECE_OK, 12, 11, 12, 12, 12, 6).unwrap_err();
    assert_eq!(e.class, Class::Internal);
}

#[test]
fn word_spans_name_the_columns_that_hold_their_own_tokens() {
    for truncate in [Truncate::Right, Truncate::Left] {
        for seq in 4u32..=48 {
            let (live, ids, words) = encoded(TEXT, truncate, seq);
            for w in &words {
                let word = &TEXT[w.start as usize..w.end as usize];
                let first = w.first_token as usize;
                let end = first + w.n_tokens as usize;
                assert!(first >= 1 && end < live as usize, "{truncate:?} seq {seq}: `{word}` at {first}..{end}");
                assert_eq!(&ids[first..end], &tokens(word)[..], "{truncate:?} seq {seq}: `{word}`");
            }
            for w in &words {
                assert!(w.n_tokens > 0, "{truncate:?} seq {seq}: a word span with no tokens: {w:?}");
            }
            for pair in words.windows(2) {
                assert!(
                    pair[0].first_token + pair[0].n_tokens < pair[1].first_token + pair[1].n_tokens,
                    "{truncate:?} seq {seq}: spans {:?} and {:?} overlap or are out of order",
                    pair[0],
                    pair[1]
                );
                assert!(pair[0].end <= pair[1].start, "{truncate:?} seq {seq}: byte ranges are out of order");
            }
        }
    }
}

#[test]
fn right_truncation_keeps_the_head_and_left_truncation_keeps_the_tail() {
    let spans = |truncate: Truncate| -> Vec<&'static str> {
        encoded(TEXT, truncate, 12).2.iter().map(|w| &TEXT[w.start as usize..w.end as usize]).collect()
    };
    let right = spans(Truncate::Right);
    let left = spans(Truncate::Left);
    assert!(!right.is_empty(), "right truncation keeps the first words");
    assert!(!left.is_empty(), "left truncation keeps the last words");
    assert_eq!(right[0], "Konstantinopel", "right truncation keeps the head: {right:?}");
    assert_eq!(*left.last().expect("a last word"), "Berlin", "left truncation keeps the tail: {left:?}");
    assert!(!right.contains(&"Berlin"), "a 12 token window cannot hold both ends: {right:?}");
    assert!(!left.contains(&"Konstantinopel"), "a 12 token window cannot hold both ends: {left:?}");
}

#[test]
fn runs_the_normalizer_drops_are_not_words() {
    let (live, _, words) = encoded(INVISIBLE, Truncate::Right, 32);
    let names: Vec<&str> = words.iter().map(|w| &INVISIBLE[w.start as usize..w.end as usize]).collect();
    assert_eq!(names, ["New", "York", "is", "here", "today"], "only visible words are reported: {names:?}");
    let mut col = 1;
    for w in &words {
        assert!(w.n_tokens > 0, "{w:?}");
        assert_eq!(w.first_token, col, "words name consecutive columns: {w:?}");
        col += w.n_tokens;
    }
    assert_eq!(col + 1, live, "the words cover every content column");
}

#[test]
fn left_truncation_handles_documents_longer_than_the_staging_row() {
    let seq = 16u32;
    let long = "word ".repeat(seq as usize * 40);
    let (live, _, _) = encoded(&long, Truncate::Left, seq);
    assert_eq!(live, seq, "the row is full");
}

#[test]
fn a_tokenizer_that_does_not_load_is_refused() {
    let e = Vocab::load(WORDPIECE_ERR_NOT_FOUND, false, 0, 0, 0, "t.json").unwrap_err();
    assert_eq!(e.class, Class::BundleNotFound);
    assert_eq!(e.message, "tokenizer file `t.json` not found");
    assert!(Vocab::count(WORDPIECE_OK, 7).is_ok_and(|n| n == 7));
    assert_eq!(Vocab::tokenize_into(WORDPIECE_OK, 9, 4).unwrap(), 4);
}
