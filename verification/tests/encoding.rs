use rust_transformers::preprocessing::tokenizer::base_tokenizer::{
    build_input_with_special_tokens, encode_ids, truncate_sequences, TokenizedInput,
    TruncationError, TruncationStrategy,
};
use rust_transformers::preprocessing::tokenizer::ctrl_tokenizer::CtrlTokenizer;
use rust_transformers::preprocessing::vocab::bpe_vocab::BpePairVocab;
use rust_transformers::preprocessing::vocab::openai_gpt_vocab::{OpenAiGptVocab, VocabError};
use rust_transformers::requests::{
    encode_list_request, encode_request, truncation_strategy_from_name, RequestError,
    INVALID_STRATEGY_MESSAGE,
};
use std::collections::HashMap;
use std::rc::Rc;

fn tokenizer() -> CtrlTokenizer {
    let values: HashMap<String, i64> = [
        ("t", 0),
        ("h", 1),
        ("a@@", 2),
        ("n", 3),
        ("the", 4),
        ("r@@", 5),
        ("<unk>", 6),
        ("o@@", 8),
    ]
    .iter()
    .map(|(k, v)| (k.to_string(), *v))
    .collect();
    let special_values: HashMap<String, i64> = [("<unk>".to_string(), 6)].into_iter().collect();
    let vocab = OpenAiGptVocab { values, unknown_value: "<unk>", special_values };
    let merges: HashMap<(String, String), i64> = [
        ("t", "h", 0),
        ("a", "n", 1),
        ("i", "n", 2),
        ("th", "e</w>", 3),
        ("e", "r", 4),
        ("r", "e", 5),
        ("l", "l", 6),
    ]
    .iter()
    .map(|(a, b, r)| ((a.to_string(), b.to_string()), *r))
    .collect();
    CtrlTokenizer::from_existing_vocab_and_merges(Rc::new(vocab), Rc::new(BpePairVocab { values: merges }))
}

#[test]
fn tokenize_keeps_special_tokens_whole() {
    assert_eq!(
        tokenizer().tokenize("the <unk> earth"),
        vec!["the", "<unk>", "e@@", "a@@", "r@@", "t@@", "h"]
    );
}

#[test]
fn tokenize_splits_words_at_unicode_whitespace_and_keeps_line_breaks() {
    assert_eq!(tokenizer().tokenize("the\nthe"), vec!["th@@", "e@@", "\n", "the"]);
    assert_eq!(tokenizer().tokenize("the\u{3000}the"), vec!["the", "the"]);
}

#[test]
fn convert_tokens_to_ids_falls_back_to_unknown() {
    let t = tokenizer();
    let tokens = vec!["the".to_string(), "<unk>".to_string(), "zzz".to_string(), "h".to_string()];
    assert_eq!(t.convert_tokens_to_ids(&tokens), vec![4, 6, 6, 1]);
    assert_eq!(t.vocab().token_to_id("a@@"), 2);
    assert_eq!(t.vocab().token_to_id("missing"), 6);
}

#[test]
fn encode_pair_gives_second_segment() {
    let t = tokenizer();
    let input = t.encode("the", Some("earth"), 128, &TruncationStrategy::LongestFirst, 0);
    assert_eq!(input.token_ids, vec![4, 6, 2, 5, 6, 1]);
    assert_eq!(input.segment_ids, vec![0, 1, 1, 1, 1, 1]);
    assert_eq!(input.special_tokens_mask, vec![0, 0, 0, 0, 0, 0]);
    assert_eq!(input.overflowing_tokens, Vec::<i64>::new());
    assert_eq!(input.num_truncated_tokens, 0);
}

#[test]
fn encode_truncates_with_window_of_context() {
    let t = tokenizer();
    let input = t.encode("the earth", None, 3, &TruncationStrategy::LongestFirst, 1);
    assert_eq!(
        input,
        TokenizedInput {
            token_ids: vec![4, 6, 2],
            segment_ids: vec![0, 0, 0],
            special_tokens_mask: vec![0, 0, 0],
            overflowing_tokens: vec![2, 5, 6, 1],
            num_truncated_tokens: 3,
        }
    );
}

#[test]
fn encode_checked_reports_truncation_errors() {
    let t = tokenizer();
    assert_eq!(
        t.encode_checked("the earth", None, 3, &TruncationStrategy::DoNotTruncate, 0),
        Err(TruncationError::TruncationNotRequested)
    );
    assert_eq!(
        t.encode_checked("the earth", None, 3, &TruncationStrategy::OnlySecond, 0),
        Err(TruncationError::SingleSequenceOnlySecond)
    );
}

#[test]
fn encode_pair_list_encodes_each_pair() {
    let t = tokenizer();
    let inputs = t.encode_pair_list(vec![("the", "the"), ("", "the")], 128, &TruncationStrategy::OnlyFirst, 0);
    assert_eq!(inputs.len(), 2);
    assert_eq!(inputs[0].token_ids, vec![4, 4]);
    assert_eq!(inputs[0].segment_ids, vec![0, 1]);
    assert_eq!(inputs[1].token_ids, vec![4]);
    assert_eq!(inputs[1].segment_ids, vec![1]);
}

#[test]
fn truncate_nothing_to_remove_keeps_everything() {
    let r = truncate_sequences(vec![1, 2, 3], Some(vec![4]), 0, &TruncationStrategy::DoNotTruncate, 5);
    assert_eq!(r, Ok((vec![1, 2, 3], Some(vec![4]), vec![])));
}

#[test]
fn truncate_longest_first_alternates_from_the_longer() {
    let r = truncate_sequences(vec![1, 2, 3, 4], Some(vec![5, 6, 7]), 3, &TruncationStrategy::LongestFirst, 0);
    assert_eq!(r, Ok((vec![1, 2], Some(vec![5, 6]), vec![7, 3, 4])));
    let r = truncate_sequences(vec![1, 2, 3, 4], Some(vec![5, 6, 7]), 3, &TruncationStrategy::LongestFirst, 1);
    assert_eq!(r, Ok((vec![1, 2], Some(vec![5, 6]), vec![2, 7, 3, 4])));
}

#[test]
fn truncate_longest_first_needs_enough_tokens() {
    let r = truncate_sequences(vec![1], Some(vec![2]), 3, &TruncationStrategy::LongestFirst, 0);
    assert_eq!(r, Err(TruncationError::CombinedSequenceTooShort));
}

#[test]
fn truncate_only_first_and_only_second() {
    let r = truncate_sequences(vec![1, 2, 3], Some(vec![4, 5]), 2, &TruncationStrategy::OnlyFirst, 1);
    assert_eq!(r, Ok((vec![1], Some(vec![4, 5]), vec![1, 2, 3])));
    let r = truncate_sequences(vec![1, 2, 3], Some(vec![4, 5]), 1, &TruncationStrategy::OnlySecond, 0);
    assert_eq!(r, Ok((vec![1, 2, 3], Some(vec![4]), vec![5])));
    let r = truncate_sequences(vec![1], Some(vec![4, 5]), 2, &TruncationStrategy::OnlyFirst, 0);
    assert_eq!(r, Err(TruncationError::FirstSequenceTooShort));
    let r = truncate_sequences(vec![1], Some(vec![4]), 2, &TruncationStrategy::OnlySecond, 0);
    assert_eq!(r, Err(TruncationError::SecondSequenceTooShort));
    let r = truncate_sequences(vec![1], Some(vec![4]), 1, &TruncationStrategy::DoNotTruncate, 0);
    assert_eq!(r, Err(TruncationError::TruncationNotRequested));
}

#[test]
fn truncate_single_sequence() {
    let r = truncate_sequences(vec![1, 2, 3, 4, 5], None, 2, &TruncationStrategy::LongestFirst, 2);
    assert_eq!(r, Ok((vec![1, 2, 3], None, vec![2, 3, 4, 5])));
    let r = truncate_sequences(vec![1, 2], None, 3, &TruncationStrategy::OnlyFirst, 0);
    assert_eq!(r, Err(TruncationError::FirstSequenceTooShort));
    assert_eq!(
        TruncationError::FirstSequenceTooShort.message(),
        "First sequence too short for first only truncation"
    );
}

#[test]
fn build_input_concatenates_with_segments() {
    let (ids, segments, mask) = build_input_with_special_tokens(vec![1, 2], Some(vec![3]));
    assert_eq!(ids, vec![1, 2, 3]);
    assert_eq!(segments, vec![0, 0, 1]);
    assert_eq!(mask, vec![0, 0, 0]);
    let (ids, segments, mask) = build_input_with_special_tokens(vec![7], None);
    assert_eq!((ids, segments, mask), (vec![7], vec![0], vec![0]));
}

#[test]
fn encode_ids_counts_truncated_tokens() {
    let r = encode_ids(vec![1, 2, 3], Some(vec![4, 5]), 4, &TruncationStrategy::OnlySecond, 0).unwrap();
    assert_eq!(r.token_ids, vec![1, 2, 3, 4]);
    assert_eq!(r.segment_ids, vec![0, 0, 0, 1]);
    assert_eq!(r.overflowing_tokens, vec![5]);
    assert_eq!(r.num_truncated_tokens, 1);
}

#[test]
fn truncation_strategy_names() {
    assert_eq!(truncation_strategy_from_name("longest_first"), Ok(TruncationStrategy::LongestFirst));
    assert_eq!(truncation_strategy_from_name("only_first"), Ok(TruncationStrategy::OnlyFirst));
    assert_eq!(truncation_strategy_from_name("only_second"), Ok(TruncationStrategy::OnlySecond));
    assert_eq!(truncation_strategy_from_name("do_not_truncate"), Ok(TruncationStrategy::DoNotTruncate));
    assert_eq!(truncation_strategy_from_name("longest"), Err(INVALID_STRATEGY_MESSAGE));
    assert_eq!(truncation_strategy_from_name(""), Err(INVALID_STRATEGY_MESSAGE));
}

#[test]
fn encode_request_checks_the_strategy_name() {
    let t = tokenizer();
    let r = encode_request(&t, "the", None, 128, "only_third", 0);
    assert_eq!(r, Err(RequestError::InvalidTruncationStrategy));
    assert_eq!(RequestError::InvalidTruncationStrategy.message(), INVALID_STRATEGY_MESSAGE);
    let r = encode_request(&t, "the earth", None, 2, "do_not_truncate", 0);
    assert_eq!(r, Err(RequestError::Truncation(TruncationError::TruncationNotRequested)));
    let r = encode_request(&t, "the", Some("the"), 128, "longest_first", 0).unwrap();
    assert_eq!(r.token_ids, vec![4, 4]);
}

#[test]
fn encode_list_request_stops_at_first_failure() {
    let t = tokenizer();
    let ok = encode_list_request(&t, vec![("the", None), ("earth", None)], 128, "only_first", 0).unwrap();
    assert_eq!(ok.len(), 2);
    assert_eq!(ok[1].token_ids, vec![6, 2, 5, 6, 1]);
    let failed = encode_list_request(&t, vec![("the", None), ("earth", None)], 1, "only_second", 0);
    assert_eq!(failed, Err(RequestError::Truncation(TruncationError::SingleSequenceOnlySecond)));
    let invalid = encode_list_request(&t, vec![], 1, "none", 0);
    assert_eq!(invalid, Err(RequestError::InvalidTruncationStrategy));
}

#[test]
fn vocab_from_json_text() {
    let vocab = OpenAiGptVocab::from_json_text("{\"a\": 1, \"<unk>\": 0}").unwrap();
    assert_eq!(vocab.values.len(), 2);
    assert_eq!(vocab.unknown_value, "<unk>");
    assert_eq!(vocab.special_values.get("<unk>"), Some(&0));
    assert_eq!(vocab.token_to_id("a"), 1);
    assert_eq!(vocab.token_to_id("b"), 0);
    assert_eq!(OpenAiGptVocab::from_json_text("{\"a\": 1}").err(), Some(VocabError::MissingUnknownValue));
    assert_eq!(OpenAiGptVocab::from_json_text("[1, 2]").err(), Some(VocabError::InvalidJson));
}

#[test]
fn merges_from_text_ranks_lines_after_the_header() {
    let m = BpePairVocab::from_merges_text("#version: 0.2\nt h\n  a n \nbad\ni n\n");
    assert_eq!(m.values.len(), 3);
    assert_eq!(m.byte_pair_to_id(&("t".to_string(), "h".to_string())), Some(0));
    assert_eq!(m.byte_pair_to_id(&("a".to_string(), "n".to_string())), Some(1));
    assert_eq!(m.byte_pair_to_id(&("i".to_string(), "n".to_string())), Some(2));
    assert_eq!(m.byte_pair_to_id(&("b".to_string(), "a".to_string())), None);
    assert_eq!(BpePairVocab::from_merges_text("").values.len(), 0);
    let repeated = BpePairVocab::from_merges_text("header\nx y\nx y");
    assert_eq!(repeated.byte_pair_to_id(&("x".to_string(), "y".to_string())), Some(1));
}

#[test]
fn tokenize_twice_gives_the_same_tokens() {
    let t = tokenizer();
    let expected = vec!["the", "e@@", "a@@", "r@@", "t@@", "h", "the"];
    assert_eq!(t.tokenize("the earth the"), expected);
    assert_eq!(t.tokenize("the earth the"), expected);
    assert_eq!(t.tokenize_list(vec!["the earth the", "the"]), vec![expected.clone(), vec!["the"]]);
}
