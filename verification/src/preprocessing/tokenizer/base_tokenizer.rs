//! What tokenizers share: the truncation of encoded sequences to a
//! maximum length, and the assembly of the encoded input.

use vstd::prelude::*;

verus! {

/// How a sequence, or a pair of sequences, that is too long is cut down.
#[derive(Clone, Copy, Debug, PartialEq, Eq, Structural)]
pub enum TruncationStrategy {
    /// One token at a time from the end of the longer sequence (the first
    /// one when both are as long).
    LongestFirst,
    /// From the end of the first sequence only.
    OnlyFirst,
    /// From the end of the second sequence only.
    OnlySecond,
    /// No truncation: too long an input is an error.
    DoNotTruncate,
}

/// Why the tokens could not be truncated as asked.
#[derive(Clone, Copy, Debug, PartialEq, Eq, Structural)]
pub enum TruncationError {
    CombinedSequenceTooShort,
    FirstSequenceTooShort,
    SecondSequenceTooShort,
    SingleSequenceOnlySecond,
    TruncationNotRequested,
}

impl TruncationError {
    /// The text of the message that describes the error.
    pub open spec fn message_text(&self) -> Seq<char> {
        match self {
            TruncationError::CombinedSequenceTooShort => {
                "Combined sequence length too short for requested truncation amount"@
            },
            TruncationError::FirstSequenceTooShort => {
                "First sequence too short for first only truncation"@
            },
            TruncationError::SecondSequenceTooShort => {
                "Second sequence too short for second only truncation"@
            },
            TruncationError::SingleSequenceOnlySecond => {
                "Invalid truncation strategy for single sentence truncation"@
            },
            TruncationError::TruncationNotRequested => {
                "Truncation needed but no truncation requested"@
            },
        }
    }

    /// The message that describes the error.
    pub fn message(&self) -> (r: &'static str)
        ensures
            r@ == self.message_text(),
    {
        match self {
            TruncationError::CombinedSequenceTooShort => {
                "Combined sequence length too short for requested truncation amount"
            },
            TruncationError::FirstSequenceTooShort => {
                "First sequence too short for first only truncation"
            },
            TruncationError::SecondSequenceTooShort => {
                "Second sequence too short for second only truncation"
            },
            TruncationError::SingleSequenceOnlySecond => {
                "Invalid truncation strategy for single sentence truncation"
            },
            TruncationError::TruncationNotRequested => {
                "Truncation needed but no truncation requested"
            },
        }
    }
}

/// An encoded input: the token ids, the segment of each token (0 for the
/// first sequence, 1 for the second), which tokens are special, the
/// tokens cut off by truncation, and how many tokens had to go.
#[derive(Debug, Clone, PartialEq)]
pub struct TokenizedInput {
    pub token_ids: Vec<i64>,
    pub segment_ids: Vec<i8>,
    pub special_tokens_mask: Vec<i8>,
    pub overflowing_tokens: Vec<i64>,
    pub num_truncated_tokens: usize,
}

/// The contents of a `TokenizedInput`.
pub struct TokenizedInputView {
    pub token_ids: Seq<i64>,
    pub segment_ids: Seq<i8>,
    pub special_tokens_mask: Seq<i8>,
    pub overflowing_tokens: Seq<i64>,
    pub num_truncated_tokens: nat,
}

impl View for TokenizedInput {
    type V = TokenizedInputView;

    open spec fn view(&self) -> TokenizedInputView {
        TokenizedInputView {
            token_ids: self.token_ids@,
            segment_ids: self.segment_ids@,
            special_tokens_mask: self.special_tokens_mask@,
            overflowing_tokens: self.overflowing_tokens@,
            num_truncated_tokens: self.num_truncated_tokens as nat,
        }
    }
}

/// `n` copies of `x`.
pub open spec fn repeat_i8(x: i8, n: nat) -> Seq<i8> {
    Seq::new(n, |i: int| x)
}

/// `ids1` and `ids2` after `n` single-token removals, each from the end of
/// the longer of the two (of `ids1` when they are as long), with the
/// removed tokens in the order in which they are put back in front of
/// each other: the last one removed comes first.
pub open spec fn longest_first_removal(ids1: Seq<i64>, ids2: Seq<i64>, n: nat) -> (
    Seq<i64>,
    Seq<i64>,
    Seq<i64>,
)
    decreases n,
{
    if n == 0 {
        (ids1, ids2, seq![])
    } else if ids1.len() >= ids2.len() {
        let r = longest_first_removal(ids1.drop_last(), ids2, (n - 1) as nat);
        (r.0, r.1, r.2 + seq![ids1.last()])
    } else {
        let r = longest_first_removal(ids1, ids2.drop_last(), (n - 1) as nat);
        (r.0, r.1, r.2 + seq![ids2.last()])
    }
}

/// The last `stride` tokens of `kept` (all of them when there are fewer).
pub open spec fn tail_window(kept: Seq<i64>, stride: nat) -> Seq<i64> {
    let w = if kept.len() < stride {
        kept.len()
    } else {
        stride
    };
    kept.subrange(kept.len() - w, kept.len() as int)
}

/// `overflow` preceded by the last `stride` tokens of `kept`.
pub open spec fn with_window(kept: Seq<i64>, overflow: Seq<i64>, stride: nat) -> Seq<i64> {
    tail_window(kept, stride) + overflow
}

/// `ids` without its last `n` tokens, and those tokens preceded by the
/// `stride` tokens before them.
pub open spec fn cut_tail(ids: Seq<i64>, n: nat, stride: nat) -> (Seq<i64>, Seq<i64>) {
    let kept = ids.take(ids.len() - n);
    (kept, with_window(kept, ids.skip(ids.len() - n), stride))
}

/// The sequences left after removing `n` tokens with `strategy`, and the
/// overflowing tokens; or why that cannot be done.
pub open spec fn truncate_spec(
    ids1: Seq<i64>,
    ids2: Option<Seq<i64>>,
    n: nat,
    strategy: TruncationStrategy,
    stride: nat,
) -> Result<(Seq<i64>, Option<Seq<i64>>, Seq<i64>), TruncationError> {
    if n == 0 {
        Ok((ids1, ids2, seq![]))
    } else {
        match ids2 {
            Some(ids2) => match strategy {
                TruncationStrategy::LongestFirst => {
                    if ids1.len() + ids2.len() >= n {
                        let r = longest_first_removal(ids1, ids2, n);
                        Ok((r.0, Some(r.1), with_window(r.0, r.2, stride)))
                    } else {
                        Err(TruncationError::CombinedSequenceTooShort)
                    }
                },
                TruncationStrategy::OnlyFirst => {
                    if ids1.len() >= n {
                        let c = cut_tail(ids1, n, stride);
                        Ok((c.0, Some(ids2), c.1))
                    } else {
                        Err(TruncationError::FirstSequenceTooShort)
                    }
                },
                TruncationStrategy::OnlySecond => {
                    if ids2.len() >= n {
                        let c = cut_tail(ids2, n, stride);
                        Ok((ids1, Some(c.0), c.1))
                    } else {
                        Err(TruncationError::SecondSequenceTooShort)
                    }
                },
                TruncationStrategy::DoNotTruncate => Err(TruncationError::TruncationNotRequested),
            },
            None => {
                if ids1.len() >= n {
                    match strategy {
                        TruncationStrategy::LongestFirst | TruncationStrategy::OnlyFirst => {
                            let c = cut_tail(ids1, n, stride);
                            Ok((c.0, None, c.1))
                        },
                        TruncationStrategy::OnlySecond => Err(
                            TruncationError::SingleSequenceOnlySecond,
                        ),
                        TruncationStrategy::DoNotTruncate => Err(
                            TruncationError::TruncationNotRequested,
                        ),
                    }
                } else {
                    Err(TruncationError::FirstSequenceTooShort)
                }
            },
        }
    }
}

/// The contents of an optional sequence of ids.
pub open spec fn opt_view(ids: Option<Vec<i64>>) -> Option<Seq<i64>> {
    match ids {
        Some(v) => Some(v@),
        None => None,
    }
}

/// The contents of the result of `truncate_sequences`.
pub open spec fn truncation_view(
    r: Result<(Vec<i64>, Option<Vec<i64>>, Vec<i64>), TruncationError>,
) -> Result<(Seq<i64>, Option<Seq<i64>>, Seq<i64>), TruncationError> {
    match r {
        Ok(t) => Ok((t.0@, opt_view(t.1), t.2@)),
        Err(e) => Err(e),
    }
}

/// The last `stride` tokens of `ids` (all of them when there are fewer).
fn last_tokens(ids: &Vec<i64>, stride: usize) -> (r: Vec<i64>)
    ensures
        r@ == tail_window(ids@, stride as nat),
{
    let window_len = if ids.len() < stride {
        ids.len()
    } else {
        stride
    };
    let mut window: Vec<i64> = Vec::new();
    let mut i = ids.len() - window_len;
    while i < ids.len()
        invariant
            window_len <= ids.len(),
            ids.len() - window_len <= i <= ids.len(),
            window@ =~= ids@.subrange(ids.len() - window_len, i as int),
        decreases ids.len() - i,
    {
        window.push(ids[i]);
        i = i + 1;
    }
    window
}

/// `ids` without its last `n` tokens, and those tokens preceded by the
/// `stride` tokens before them.
fn truncate_with_overflow(ids: Vec<i64>, n: usize, stride: usize) -> (r: (Vec<i64>, Vec<i64>))
    requires
        n <= ids.len(),
    ensures
        (r.0@, r.1@) == cut_tail(ids@, n as nat, stride as nat),
{
    let mut kept = ids;
    let ghost whole = kept@;
    let cutoff = kept.len() - n;
    let mut overflow = kept.split_off(cutoff);
    let mut window = last_tokens(&kept, stride);
    window.append(&mut overflow);
    assert(kept@ =~= whole.take(whole.len() - n));
    (kept, window)
}

/// Removes `num_tokens_to_remove` tokens from `token_ids_1` and
/// `token_ids_2` with `truncation_strategy`, and returns what is left with
/// the overflowing tokens: those removed, preceded by up to `stride`
/// tokens of context.
pub fn truncate_sequences(
    token_ids_1: Vec<i64>,
    token_ids_2: Option<Vec<i64>>,
    num_tokens_to_remove: usize,
    truncation_strategy: &TruncationStrategy,
    stride: usize,
) -> (r: Result<(Vec<i64>, Option<Vec<i64>>, Vec<i64>), TruncationError>)
    ensures
        truncation_view(r) == truncate_spec(
            token_ids_1@,
            opt_view(token_ids_2),
            num_tokens_to_remove as nat,
            *truncation_strategy,
            stride as nat,
        ),
{
    let n = num_tokens_to_remove;
    if n == 0 {
        return Ok((token_ids_1, token_ids_2, Vec::new()));
    }
    match token_ids_2 {
        Some(ids2) => match truncation_strategy {
            TruncationStrategy::LongestFirst => {
                if token_ids_1.len() >= n || ids2.len() >= n - token_ids_1.len() {
                    let mut a = token_ids_1;
                    let mut b = ids2;
                    let mut overflow: Vec<i64> = Vec::new();
                    let ghost goal = longest_first_removal(a@, b@, n as nat);
                    let mut k: usize = 0;
                    while k < n
                        invariant
                            k <= n,
                            a@.len() + b@.len() >= n - k,
                            goal.0 == longest_first_removal(a@, b@, (n - k) as nat).0,
                            goal.1 == longest_first_removal(a@, b@, (n - k) as nat).1,
                            goal.2 == longest_first_removal(a@, b@, (n - k) as nat).2 + overflow@,
                        decreases n - k,
                    {
                        let ghost a0 = a@;
                        let ghost b0 = b@;
                        let ghost o0 = overflow@;
                        if a.len() >= b.len() {
                            let x = a.pop().unwrap();
                            overflow.insert(0, x);
                            assert(a@ =~= a0.drop_last());
                            assert(overflow@ =~= seq![a0.last()] + o0);
                        } else {
                            let x = b.pop().unwrap();
                            overflow.insert(0, x);
                            assert(b@ =~= b0.drop_last());
                            assert(overflow@ =~= seq![b0.last()] + o0);
                        }
                        k = k + 1;
                    }
                    let mut window = last_tokens(&a, stride);
                    window.append(&mut overflow);
                    Ok((a, Some(b), window))
                } else {
                    Err(TruncationError::CombinedSequenceTooShort)
                }
            },
            TruncationStrategy::OnlyFirst => {
                if token_ids_1.len() >= n {
                    let (a, o) = truncate_with_overflow(token_ids_1, n, stride);
                    Ok((a, Some(ids2), o))
                } else {
                    Err(TruncationError::FirstSequenceTooShort)
                }
            },
            TruncationStrategy::OnlySecond => {
                if ids2.len() >= n {
                    let (b, o) = truncate_with_overflow(ids2, n, stride);
                    Ok((token_ids_1, Some(b), o))
                } else {
                    Err(TruncationError::SecondSequenceTooShort)
                }
            },
            TruncationStrategy::DoNotTruncate => Err(TruncationError::TruncationNotRequested),
        },
        None => {
            if token_ids_1.len() >= n {
                match truncation_strategy {
                    TruncationStrategy::LongestFirst | TruncationStrategy::OnlyFirst => {
                        let (a, o) = truncate_with_overflow(token_ids_1, n, stride);
                        Ok((a, None, o))
                    },
                    TruncationStrategy::OnlySecond => Err(
                        TruncationError::SingleSequenceOnlySecond,
                    ),
                    TruncationStrategy::DoNotTruncate => Err(
                        TruncationError::TruncationNotRequested,
                    ),
                }
            } else {
                Err(TruncationError::FirstSequenceTooShort)
            }
        },
    }
}

/// The ids of the input built from one or two sequences, without special
/// tokens: the ids of the first, then those of the second.
pub open spec fn input_ids(ids1: Seq<i64>, ids2: Option<Seq<i64>>) -> Seq<i64> {
    match ids2 {
        Some(b) => ids1 + b,
        None => ids1,
    }
}

/// The segment ids of that input: 0 for each token of the first sequence,
/// 1 for each of the second.
pub open spec fn input_segments(ids1: Seq<i64>, ids2: Option<Seq<i64>>) -> Seq<i8> {
    match ids2 {
        Some(b) => repeat_i8(0, ids1.len()) + repeat_i8(1, b.len()),
        None => repeat_i8(0, ids1.len()),
    }
}

/// The input made of one or two sequences of ids, with their segment ids
/// and the mask of special tokens (none are added).
pub fn build_input_with_special_tokens(tokens_1: Vec<i64>, tokens_2: Option<Vec<i64>>) -> (r: (
    Vec<i64>,
    Vec<i8>,
    Vec<i8>,
))
    ensures
        r.0@ == input_ids(tokens_1@, opt_view(tokens_2)),
        r.1@ == input_segments(tokens_1@, opt_view(tokens_2)),
        r.2@ == repeat_i8(0, input_ids(tokens_1@, opt_view(tokens_2)).len()),
{
    let mut output = tokens_1;
    let mut segments: Vec<i8> = Vec::new();
    let mut mask: Vec<i8> = Vec::new();
    let len_1 = output.len();
    let mut i: usize = 0;
    while i < len_1
        invariant
            i <= len_1,
            segments@ =~= repeat_i8(0, i as nat),
            mask@ =~= repeat_i8(0, i as nat),
        decreases len_1 - i,
    {
        segments.push(0);
        mask.push(0);
        i = i + 1;
    }
    match tokens_2 {
        Some(mut tokens) => {
            let len_2 = tokens.len();
            let ghost first = output@;
            let ghost second = tokens@;
            let mut j: usize = 0;
            while j < len_2
                invariant
                    j <= len_2,
                    segments@ =~= repeat_i8(0, len_1 as nat) + repeat_i8(1, j as nat),
                    mask@ =~= repeat_i8(0, (len_1 + j) as nat),
                decreases len_2 - j,
            {
                segments.push(1);
                mask.push(0);
                j = j + 1;
            }
            output.append(&mut tokens);
            assert(output@ == first + second);
        },
        None => {},
    }
    (output, segments, mask)
}

/// The number of ids in an optional second sequence.
pub open spec fn opt_len(ids2: Option<Seq<i64>>) -> nat {
    match ids2 {
        Some(b) => b.len(),
        None => 0,
    }
}

/// The number of tokens to remove so that `ids1` and `ids2` together fit
/// in `max_len` tokens.
pub open spec fn excess(ids1: Seq<i64>, ids2: Option<Seq<i64>>, max_len: nat) -> nat {
    let total = ids1.len() + opt_len(ids2);
    if total > max_len {
        (total - max_len) as nat
    } else {
        0
    }
}

/// The input encoded from the ids `ids1` (and `ids2`), cut down with
/// `strategy` to `max_len` tokens; or why it cannot be cut down so.
pub open spec fn encode_spec(
    ids1: Seq<i64>,
    ids2: Option<Seq<i64>>,
    max_len: nat,
    strategy: TruncationStrategy,
    stride: nat,
) -> Result<TokenizedInputView, TruncationError> {
    let n = excess(ids1, ids2, max_len);
    match truncate_spec(ids1, ids2, n, strategy, stride) {
        Ok(t) => Ok(
            TokenizedInputView {
                token_ids: input_ids(t.0, t.1),
                segment_ids: input_segments(t.0, t.1),
                special_tokens_mask: repeat_i8(0, input_ids(t.0, t.1).len()),
                overflowing_tokens: t.2,
                num_truncated_tokens: n,
            },
        ),
        Err(e) => Err(e),
    }
}

/// The contents of the result of an encoding.
pub open spec fn encoding_view(r: Result<TokenizedInput, TruncationError>) -> Result<
    TokenizedInputView,
    TruncationError,
> {
    match r {
        Ok(t) => Ok(t@),
        Err(e) => Err(e),
    }
}

/// The input encoded from the ids `token_ids_1` (and `token_ids_2`): as
/// many tokens as go beyond `max_len` are removed with
/// `truncation_strategy`, then the sequences are put together.
pub fn encode_ids(
    token_ids_1: Vec<i64>,
    token_ids_2: Option<Vec<i64>>,
    max_len: usize,
    truncation_strategy: &TruncationStrategy,
    stride: usize,
) -> (r: Result<TokenizedInput, TruncationError>)
    requires
        token_ids_1@.len() + opt_len(opt_view(token_ids_2)) <= usize::MAX,
    ensures
        encoding_view(r) == encode_spec(
            token_ids_1@,
            opt_view(token_ids_2),
            max_len as nat,
            *truncation_strategy,
            stride as nat,
        ),
{
    let len_1 = token_ids_1.len();
    let len_2 = match &token_ids_2 {
        Some(ids) => ids.len(),
        None => 0,
    };
    let total_len = len_1 + len_2;
    let num_truncated_tokens = if total_len > max_len {
        total_len - max_len
    } else {
        0
    };
    match truncate_sequences(
        token_ids_1,
        token_ids_2,
        num_truncated_tokens,
        truncation_strategy,
        stride,
    ) {
        Ok((ids_1, ids_2, overflowing_tokens)) => {
            let (token_ids, segment_ids, special_tokens_mask) = build_input_with_special_tokens(
                ids_1,
                ids_2,
            );
            Ok(
                TokenizedInput {
                    token_ids,
                    segment_ids,
                    special_tokens_mask,
                    overflowing_tokens,
                    num_truncated_tokens,
                },
            )
        },
        Err(e) => Err(e),
    }
}

proof fn lemma_longest_first_removal_lengths(ids1: Seq<i64>, ids2: Seq<i64>, n: nat)
    requires
        ids1.len() + ids2.len() >= n,
    ensures
        ({
            let r = longest_first_removal(ids1, ids2, n);
            &&& r.0.len() + r.1.len() == ids1.len() + ids2.len() - n
            &&& r.0.len() <= ids1.len()
            &&& r.1.len() <= ids2.len()
            &&& r.0 == ids1.take(r.0.len() as int)
            &&& r.1 == ids2.take(r.1.len() as int)
            &&& r.2.len() == n
        }),
    decreases n,
{
    if n > 0 {
        if ids1.len() >= ids2.len() {
            lemma_longest_first_removal_lengths(ids1.drop_last(), ids2, (n - 1) as nat);
            let r = longest_first_removal(ids1.drop_last(), ids2, (n - 1) as nat);
            assert(ids1.drop_last().take(r.0.len() as int) =~= ids1.take(r.0.len() as int));
        } else {
            lemma_longest_first_removal_lengths(ids1, ids2.drop_last(), (n - 1) as nat);
            let r = longest_first_removal(ids1, ids2.drop_last(), (n - 1) as nat);
            assert(ids2.drop_last().take(r.1.len() as int) =~= ids2.take(r.1.len() as int));
        }
    }
}

/// An encoding that succeeds fits: it holds `max_len` tokens, or all the
/// tokens when there are fewer, the tokens it keeps come first in their
/// sequences, one segment id and one mask entry go with each token, and
/// the count of truncated tokens is the excess.
pub proof fn lemma_encoding_fits(
    ids1: Seq<i64>,
    ids2: Option<Seq<i64>>,
    max_len: nat,
    strategy: TruncationStrategy,
    stride: nat,
)
    ensures
        encode_spec(ids1, ids2, max_len, strategy, stride) matches Ok(v) ==> {
            &&& v.token_ids.len() == ids1.len() + opt_len(ids2) - excess(ids1, ids2, max_len)
            &&& v.token_ids.len() <= max_len
            &&& v.segment_ids.len() == v.token_ids.len()
            &&& v.special_tokens_mask.len() == v.token_ids.len()
            &&& v.num_truncated_tokens == excess(ids1, ids2, max_len)
        },
{
    let n = excess(ids1, ids2, max_len);
    if let Ok(t) = truncate_spec(ids1, ids2, n, strategy, stride) {
        if n > 0 {
            match ids2 {
                Some(b) => {
                    if strategy == TruncationStrategy::LongestFirst {
                        lemma_longest_first_removal_lengths(ids1, b, n);
                    }
                },
                None => {},
            }
        }
        assert(input_ids(t.0, t.1).len() == t.0.len() + opt_len(t.1));
    }
}

/// An input that fits in `max_len` tokens is encoded whole, whatever the
/// strategy: the ids of the first sequence then of the second, segment 0
/// then 1, and nothing overflows.
pub proof fn lemma_fitting_input_kept_whole(
    ids1: Seq<i64>,
    ids2: Option<Seq<i64>>,
    max_len: nat,
    strategy: TruncationStrategy,
    stride: nat,
)
    requires
        ids1.len() + opt_len(ids2) <= max_len,
    ensures
        encode_spec(ids1, ids2, max_len, strategy, stride) == Ok::<TokenizedInputView, TruncationError>(
            TokenizedInputView {
                token_ids: input_ids(ids1, ids2),
                segment_ids: input_segments(ids1, ids2),
                special_tokens_mask: repeat_i8(0, input_ids(ids1, ids2).len()),
                overflowing_tokens: seq![],
                num_truncated_tokens: 0,
            },
        ),
{
}

/// Truncating a single sequence loses nothing: what is kept, followed by
/// the tokens removed, is the sequence; when tokens are removed, the
/// overflowing tokens are the last `stride` tokens kept followed by those
/// removed, and otherwise there are none.
pub proof fn lemma_single_truncation_splits(
    ids: Seq<i64>,
    n: nat,
    strategy: TruncationStrategy,
    stride: nat,
)
    ensures
        truncate_spec(ids, None, n, strategy, stride) matches Ok(t) ==> {
            let w = tail_window(t.0, stride);
            &&& t.1 is None
            &&& n > 0 ==> t.2 == w + ids.skip(t.0.len() as int)
            &&& n == 0 ==> t.2 == Seq::<i64>::empty()
            &&& t.0 + ids.skip(t.0.len() as int) == ids
            &&& t.0.len() == ids.len() - n
        },
{
    if let Ok(t) = truncate_spec(ids, None, n, strategy, stride) {
        if n == 0 {
            assert(ids.skip(ids.len() as int) =~= Seq::<i64>::empty());
            assert(ids + ids.skip(ids.len() as int) =~= ids);
        } else {
            assert(ids.take(ids.len() - n) + ids.skip(ids.len() - n) =~= ids);
        }
    }
}

/// Truncating one sequence of a pair loses nothing: with `only_first` or
/// `only_second`, the other sequence stays whole, the cut one keeps its
/// first tokens, what it keeps followed by what it loses is the sequence,
/// and the overflowing tokens are its last `stride` kept tokens (all of
/// them when fewer) followed by those lost; it succeeds exactly when the
/// cut sequence has `n` tokens to lose.
pub proof fn lemma_pair_truncation_of_one_side(
    ids1: Seq<i64>,
    ids2: Seq<i64>,
    n: nat,
    stride: nat,
)
    requires
        n > 0,
    ensures
        (truncate_spec(ids1, Some(ids2), n, TruncationStrategy::OnlySecond, stride) is Ok) == (
        ids2.len() >= n),
        truncate_spec(ids1, Some(ids2), n, TruncationStrategy::OnlySecond, stride) matches Ok(t)
            ==> {
            &&& t.0 == ids1
            &&& t.1 is Some
            &&& t.1->0.len() == ids2.len() - n
            &&& t.1->0 + ids2.skip(ids2.len() - n) == ids2
            &&& t.2 == t.1->0.subrange(
                t.1->0.len() - (if t.1->0.len() < stride {
                    t.1->0.len()
                } else {
                    stride
                }),
                t.1->0.len() as int,
            ) + ids2.skip(ids2.len() - n)
        },
        (truncate_spec(ids1, Some(ids2), n, TruncationStrategy::OnlyFirst, stride) is Ok) == (
        ids1.len() >= n),
        truncate_spec(ids1, Some(ids2), n, TruncationStrategy::OnlyFirst, stride) matches Ok(t)
            ==> {
            &&& t.1 == Some(ids2)
            &&& t.0.len() == ids1.len() - n
            &&& t.0 + ids1.skip(ids1.len() - n) == ids1
            &&& t.2 == t.0.subrange(
                t.0.len() - (if t.0.len() < stride {
                    t.0.len()
                } else {
                    stride
                }),
                t.0.len() as int,
            ) + ids1.skip(ids1.len() - n)
        },
{
    if ids2.len() >= n {
        assert(ids2.take(ids2.len() - n) + ids2.skip(ids2.len() - n) =~= ids2);
    }
    if ids1.len() >= n {
        assert(ids1.take(ids1.len() - n) + ids1.skip(ids1.len() - n) =~= ids1);
    }
}

} // verus!
