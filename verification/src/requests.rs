//! Encoding requests that name their truncation strategy, as the Python
//! bindings receive them.

use vstd::prelude::*;
use crate::preprocessing::tokenizer::base_tokenizer::{
    encode_spec, opt_len, TokenizedInput, TokenizedInputView, TruncationError, TruncationStrategy,
};
use crate::preprocessing::tokenizer::ctrl_tokenizer::CtrlTokenizer;

verus! {

/// The truncation strategy called `name`, if there is one.
pub open spec fn strategy_named(name: Seq<char>) -> Option<TruncationStrategy> {
    if name == "longest_first"@ {
        Some(TruncationStrategy::LongestFirst)
    } else if name == "only_first"@ {
        Some(TruncationStrategy::OnlyFirst)
    } else if name == "only_second"@ {
        Some(TruncationStrategy::OnlySecond)
    } else if name == "do_not_truncate"@ {
        Some(TruncationStrategy::DoNotTruncate)
    } else {
        None
    }
}

/// The message given for a name that is no truncation strategy.
pub const INVALID_STRATEGY_MESSAGE: &'static str =
    "Invalid truncation strategy provided. Must be one of `longest_first`, `only_first`, `only_second` or `do_not_truncate`";

/// The truncation strategy called `name`: `longest_first`, `only_first`,
/// `only_second` or `do_not_truncate`.
pub fn truncation_strategy_from_name(name: &str) -> (r: Result<TruncationStrategy, &'static str>)
    ensures
        match strategy_named(name@) {
            Some(s) => r == Ok::<TruncationStrategy, &'static str>(s),
            None => r == Err::<TruncationStrategy, &'static str>(INVALID_STRATEGY_MESSAGE),
        },
{
    let given = String::from_str(name);
    if given == String::from_str("longest_first") {
        Ok(TruncationStrategy::LongestFirst)
    } else if given == String::from_str("only_first") {
        Ok(TruncationStrategy::OnlyFirst)
    } else if given == String::from_str("only_second") {
        Ok(TruncationStrategy::OnlySecond)
    } else if given == String::from_str("do_not_truncate") {
        Ok(TruncationStrategy::DoNotTruncate)
    } else {
        Err(INVALID_STRATEGY_MESSAGE)
    }
}

/// Why an encoding request failed.
#[derive(Clone, Copy, Debug, PartialEq, Eq, Structural)]
pub enum RequestError {
    /// The truncation strategy named is not one of the four.
    InvalidTruncationStrategy,
    /// The input could not be truncated as asked.
    Truncation(TruncationError),
}

impl RequestError {
    /// The text of the message that describes the error.
    pub open spec fn message_text(&self) -> Seq<char> {
        match self {
            RequestError::InvalidTruncationStrategy => INVALID_STRATEGY_MESSAGE@,
            RequestError::Truncation(e) => e.message_text(),
        }
    }

    /// The message that describes the error.
    pub fn message(&self) -> (r: &'static str)
        ensures
            r@ == self.message_text(),
    {
        match self {
            RequestError::InvalidTruncationStrategy => INVALID_STRATEGY_MESSAGE,
            RequestError::Truncation(e) => e.message(),
        }
    }
}

/// What a request for one encoding gives: the encoding of `ids1` (with
/// `ids2`) under the strategy called `name`.
pub open spec fn encode_request_spec(
    name: Seq<char>,
    ids1: Seq<i64>,
    ids2: Option<Seq<i64>>,
    max_len: nat,
    stride: nat,
) -> Result<TokenizedInputView, RequestError> {
    match strategy_named(name) {
        None => Err(RequestError::InvalidTruncationStrategy),
        Some(s) => match encode_spec(ids1, ids2, max_len, s, stride) {
            Ok(v) => Ok(v),
            Err(e) => Err(RequestError::Truncation(e)),
        },
    }
}

/// The contents of the result of a request for one encoding.
pub open spec fn request_view(r: Result<TokenizedInput, RequestError>) -> Result<
    TokenizedInputView,
    RequestError,
> {
    match r {
        Ok(t) => Ok(t@),
        Err(e) => Err(e),
    }
}

/// `text_a` (with `text_b`) encoded by `tokenizer` under the truncation
/// strategy called `truncation_strategy`.
pub fn encode_request(
    tokenizer: &CtrlTokenizer,
    text_a: &str,
    text_b: Option<&str>,
    max_len: usize,
    truncation_strategy: &str,
    stride: usize,
) -> (r: Result<TokenizedInput, RequestError>)
    requires
        tokenizer.vocab_spec().wf(),
        tokenizer.text_ids(text_a@).len() + opt_len(tokenizer.pair_ids(text_b)) <= usize::MAX,
    ensures
        request_view(r) == encode_request_spec(
            truncation_strategy@,
            tokenizer.text_ids(text_a@),
            tokenizer.pair_ids(text_b),
            max_len as nat,
            stride as nat,
        ),
{
    match truncation_strategy_from_name(truncation_strategy) {
        Ok(strategy) => match tokenizer.encode_checked(text_a, text_b, max_len, &strategy, stride) {
            Ok(input) => Ok(input),
            Err(e) => Err(RequestError::Truncation(e)),
        },
        Err(_) => Err(RequestError::InvalidTruncationStrategy),
    }
}

/// Each text of `text_list` (or pair of texts, with `text_b` the second
/// of each) encoded under the truncation strategy called
/// `truncation_strategy`; the first failure ends the request.
pub fn encode_list_request(
    tokenizer: &CtrlTokenizer,
    text_list: Vec<(&str, Option<&str>)>,
    max_len: usize,
    truncation_strategy: &str,
    stride: usize,
) -> (r: Result<Vec<TokenizedInput>, RequestError>)
    requires
        tokenizer.vocab_spec().wf(),
        forall|i: int|
            0 <= i < text_list.len() ==> tokenizer.text_ids((#[trigger] text_list[i]).0@).len()
                + opt_len(tokenizer.pair_ids(text_list[i].1)) <= usize::MAX,
    ensures
        strategy_named(truncation_strategy@) is None ==> r == Err::<Vec<TokenizedInput>, RequestError>(
            RequestError::InvalidTruncationStrategy,
        ),
        r matches Ok(v) ==> v.len() == text_list.len() && forall|i: int|
            0 <= i < v.len() ==> encode_request_spec(
                truncation_strategy@,
                tokenizer.text_ids((#[trigger] text_list[i]).0@),
                tokenizer.pair_ids(text_list[i].1),
                max_len as nat,
                stride as nat,
            ) == Ok::<TokenizedInputView, RequestError>(v[i]@),
        r matches Err(e) ==> strategy_named(truncation_strategy@) is None || exists|i: int|
            0 <= i < text_list.len() && encode_request_spec(
                truncation_strategy@,
                tokenizer.text_ids((#[trigger] text_list[i]).0@),
                tokenizer.pair_ids(text_list[i].1),
                max_len as nat,
                stride as nat,
            ) == Err::<TokenizedInputView, RequestError>(e) && forall|j: int|
                0 <= j < i ==> encode_request_spec(
                    truncation_strategy@,
                    tokenizer.text_ids((#[trigger] text_list[j]).0@),
                    tokenizer.pair_ids(text_list[j].1),
                    max_len as nat,
                    stride as nat,
                ) is Ok,
        strategy_named(truncation_strategy@) is Some && (forall|i: int|
            0 <= i < text_list.len() ==> encode_request_spec(
                truncation_strategy@,
                tokenizer.text_ids((#[trigger] text_list[i]).0@),
                tokenizer.pair_ids(text_list[i].1),
                max_len as nat,
                stride as nat,
            ) is Ok) ==> r is Ok,
{
    let strategy = match truncation_strategy_from_name(truncation_strategy) {
        Ok(s) => s,
        Err(_) => {
            return Err(RequestError::InvalidTruncationStrategy);
        },
    };
    let mut encoded: Vec<TokenizedInput> = Vec::new();
    for i in 0..text_list.len()
        invariant
            strategy_named(truncation_strategy@) == Some(strategy),
            tokenizer.vocab_spec().wf(),
            forall|k: int|
                0 <= k < text_list.len() ==> tokenizer.text_ids((#[trigger] text_list[k]).0@).len()
                    + opt_len(tokenizer.pair_ids(text_list[k].1)) <= usize::MAX,
            encoded.len() == i,
            forall|j: int|
                0 <= j < i ==> encode_request_spec(
                    truncation_strategy@,
                    tokenizer.text_ids((#[trigger] text_list[j]).0@),
                    tokenizer.pair_ids(text_list[j].1),
                    max_len as nat,
                    stride as nat,
                ) == Ok::<TokenizedInputView, RequestError>(encoded[j]@),
    {
        let (text_a, text_b) = text_list[i];
        assert(tokenizer.text_ids(text_list[i as int].0@).len() + opt_len(
            tokenizer.pair_ids(text_list[i as int].1),
        ) <= usize::MAX);
        match tokenizer.encode_checked(text_a, text_b, max_len, &strategy, stride) {
            Ok(input) => {
                encoded.push(input);
            },
            Err(e) => {
                return Err(RequestError::Truncation(e));
            },
        }
    }
    Ok(encoded)
}

} // verus!
