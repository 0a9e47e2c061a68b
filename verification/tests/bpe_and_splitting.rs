use rust_transformers::preprocessing::tokenizer::text::{chars_of, split_ranges, trim_bounds};
use rust_transformers::preprocessing::tokenizer::tokenization_utils::{
    contains_string, ctrl_bpe, split_on_special_tokens, split_with_separator,
};
use rust_transformers::preprocessing::vocab::bpe_vocab::BpePairVocab;
use std::collections::HashMap;

fn merges(pairs: &[(&str, &str, i64)]) -> BpePairVocab {
    let values: HashMap<(String, String), i64> =
        pairs.iter().map(|(a, b, r)| ((a.to_string(), b.to_string()), *r)).collect();
    BpePairVocab { values }
}

fn test_merges() -> BpePairVocab {
    merges(&[
        ("t", "h", 0),
        ("a", "n", 1),
        ("i", "n", 2),
        ("th", "e</w>", 3),
        ("e", "r", 4),
        ("r", "e", 5),
        ("l", "l", 6),
    ])
}

#[test]
fn ctrl_bpe_merges_to_one_symbol() {
    assert_eq!(ctrl_bpe("the", &test_merges()), vec!["the"]);
}

#[test]
fn ctrl_bpe_without_merges_marks_every_character() {
    assert_eq!(ctrl_bpe("earth", &test_merges()), vec!["e@@", "a@@", "r@@", "t@@", "h"]);
}

#[test]
fn ctrl_bpe_of_empty_word_is_empty() {
    assert_eq!(ctrl_bpe("", &test_merges()), Vec::<String>::new());
}

#[test]
fn ctrl_bpe_of_single_character() {
    assert_eq!(ctrl_bpe("a", &test_merges()), vec!["a"]);
}

#[test]
fn ctrl_bpe_merges_lowest_rank_first() {
    let low_bc = merges(&[("a", "b", 1), ("b", "c", 0)]);
    assert_eq!(ctrl_bpe("abcd", &low_bc), vec!["a@@", "bc@@", "d"]);
    let low_ab = merges(&[("a", "b", 0), ("b", "c", 1)]);
    assert_eq!(ctrl_bpe("abcd", &low_ab), vec!["ab@@", "c@@", "d"]);
}

#[test]
fn ctrl_bpe_merges_occurrences_left_to_right() {
    let aa = merges(&[("a", "a", 0)]);
    assert_eq!(ctrl_bpe("aaaa", &aa), vec!["aa@@", "a@@", "a"]);
}

#[test]
fn ctrl_bpe_keeps_the_line_break() {
    assert_eq!(ctrl_bpe("the\n", &test_merges()), vec!["th@@", "e@@", "\n"]);
}

#[test]
fn ctrl_bpe_pieces_reassemble_to_the_word() {
    for word in ["the", "earth", "Hello,", "aaaa", "x", "über"] {
        let pieces = ctrl_bpe(word, &test_merges());
        let n = pieces.len();
        let joined: String = pieces
            .iter()
            .enumerate()
            .map(|(i, p)| if i + 1 < n { p.strip_suffix("@@").unwrap().to_string() } else { p.clone() })
            .collect();
        assert_eq!(joined, word);
    }
}

#[test]
fn split_with_separator_keeps_separators_and_trims() {
    assert_eq!(split_with_separator("the <unk> earth", "<unk>"), vec!["the", "<unk>", "earth"]);
    assert_eq!(split_with_separator("a<unk>", "<unk>"), vec!["a", "<unk>", ""]);
    assert_eq!(split_with_separator("<unk>", "<unk>"), vec!["<unk>", ""]);
    assert_eq!(split_with_separator("  the earth ", "<unk>"), vec!["the earth"]);
}

#[test]
fn split_with_separator_whitespace_only_text_gives_the_separator() {
    assert_eq!(split_with_separator(" ", "<unk>"), vec!["<unk>"]);
    assert_eq!(split_with_separator(" \n ", "<unk>"), vec!["<unk>"]);
}

#[test]
fn split_with_separator_empty_text_stays_one_empty_piece() {
    assert_eq!(split_with_separator("", "<unk>"), vec![""]);
}

#[test]
fn split_with_empty_separator_cuts_around_each_character() {
    assert_eq!(split_with_separator("ab", ""), vec!["", "a", "", "b", "", ""]);
}

#[test]
fn split_on_special_tokens_takes_each_token_in_turn() {
    let specials = vec!["<unk>".to_string(), "<eos>".to_string()];
    assert_eq!(
        split_on_special_tokens("a <unk> b <eos> c", &specials),
        vec!["a", "<unk>", "b", "<eos>", "c"]
    );
    assert_eq!(split_on_special_tokens("plain text", &specials), vec!["plain text"]);
    assert_eq!(split_on_special_tokens("", &specials), vec![""]);
}

#[test]
fn contains_string_compares_contents() {
    let list = vec!["<unk>".to_string(), "x".to_string()];
    assert!(contains_string(&list, &"x".to_string()));
    assert!(!contains_string(&list, &"y".to_string()));
}

#[test]
fn chars_and_trim_bounds() {
    let chars = chars_of(" \u{3000}ab c\t");
    assert_eq!(chars.len(), 7);
    assert_eq!(trim_bounds(&chars, 0, chars.len()), (2, 6));
    assert_eq!(trim_bounds(&chars, 0, 2), (2, 2));
}

#[test]
fn split_ranges_cut_at_each_occurrence() {
    let text = chars_of("a--b----c");
    let sep = chars_of("--");
    assert_eq!(split_ranges(&text, &sep), vec![(0, 1), (3, 4), (6, 6), (8, 9)]);
    let no_sep = chars_of("abc");
    assert_eq!(split_ranges(&no_sep, &sep), vec![(0, 3)]);
}
