//! The tokenizer of the CTRL model: text is cut at the special tokens of
//! the vocabulary, the rest into words, and each word is byte-pair encoded.

use std::collections::HashMap;
use std::rc::Rc;
use vstd::prelude::*;
use vstd::cell::invcell::InvCell;
use vstd::predicate::Predicate;
use crate::preprocessing::vocab::bpe_vocab::BpePairVocab;
use crate::preprocessing::vocab::openai_gpt_vocab::OpenAiGptVocab;
use crate::preprocessing::vocab::base_vocab::{lemma_empty_map_deep_view, string_map_keys};
use crate::preprocessing::tokenizer::tokenization_utils::{
    contains_string, ctrl_bpe, ctrl_bpe_spec, lemma_ctrl_bpe_reassembles, split_on_special_tokens,
    unmark_symbols,
    split_on_special_tokens_spec,
};
use crate::preprocessing::tokenizer::word_pattern::{find_words, word_matches, WordPattern};
use crate::preprocessing::tokenizer::base_tokenizer::{
    encode_ids, encode_spec, encoding_view, opt_len, TokenizedInput, TokenizedInputView,
    TruncationError, TruncationStrategy,
};

verus! {

/// The tokens of one piece of text cut at the special tokens: a special
/// token stays whole, any other piece gives the byte-pair encodings of its
/// words.
pub open spec fn tokenize_piece(
    ranks: Map<(Seq<char>, Seq<char>), i64>,
    specials: Seq<Seq<char>>,
    piece: Seq<char>,
) -> Seq<Seq<char>> {
    if specials.contains(piece) {
        seq![piece]
    } else {
        word_matches(piece).map_values(|w: Seq<char>| ctrl_bpe_spec(ranks, w)).flatten()
    }
}

/// The CTRL tokens of `text`, with the merge ranks `ranks` and the special
/// tokens `specials`, taken in the order given.
pub open spec fn ctrl_tokenize(
    ranks: Map<(Seq<char>, Seq<char>), i64>,
    specials: Seq<Seq<char>>,
    text: Seq<char>,
) -> Seq<Seq<char>> {
    split_on_special_tokens_spec(text, specials).map_values(
        |p: Seq<char>| tokenize_piece(ranks, specials, p),
    ).flatten()
}

/// Tokenizing loses no word: the tokens of a piece that is not a special
/// token fall into one group per match of `\S+\n?` in the piece, in
/// order, and each group, with its `@@` markers removed, joins to its word.
pub proof fn lemma_piece_tokens_cover_words(
    ranks: Map<(Seq<char>, Seq<char>), i64>,
    specials: Seq<Seq<char>>,
    piece: Seq<char>,
)
    requires
        !specials.contains(piece),
    ensures
        exists|groups: Seq<Seq<Seq<char>>>|
            {
                &&& groups.len() == word_matches(piece).len()
                &&& #[trigger] groups.flatten() == tokenize_piece(ranks, specials, piece)
                &&& forall|i: int|
                    0 <= i < groups.len() ==> #[trigger] unmark_symbols(groups[i]).flatten()
                        == word_matches(piece)[i]
            },
{
    let words = word_matches(piece);
    let groups = words.map_values(|w: Seq<char>| ctrl_bpe_spec(ranks, w));
    assert forall|i: int| 0 <= i < groups.len() implies #[trigger] unmark_symbols(
        groups[i],
    ).flatten() == words[i] by {
        lemma_ctrl_bpe_reassembles(ranks, words[i]);
    }
    assert(groups.flatten() == tokenize_piece(ranks, specials, piece));
}

/// A text without special tokens loses no word either: its tokens fall
/// into one group per word of the text, each joining to its word once its
/// `@@` markers are removed.
pub proof fn lemma_text_tokens_cover_words(ranks: Map<(Seq<char>, Seq<char>), i64>, text: Seq<char>)
    ensures
        exists|groups: Seq<Seq<Seq<char>>>|
            {
                &&& groups.len() == word_matches(text).len()
                &&& #[trigger] groups.flatten() == ctrl_tokenize(ranks, seq![], text)
                &&& forall|i: int|
                    0 <= i < groups.len() ==> #[trigger] unmark_symbols(groups[i]).flatten()
                        == word_matches(text)[i]
            },
{
    let specials: Seq<Seq<char>> = seq![];
    assert(split_on_special_tokens_spec(text, specials) == seq![text]);
    let outs = seq![text].map_values(|p: Seq<char>| tokenize_piece(ranks, specials, p));
    assert(outs =~= seq![tokenize_piece(ranks, specials, text)]);
    outs.lemma_flatten_one_element();
    lemma_piece_tokens_cover_words(ranks, specials, text);
}

/// What the cache of encoded words holds: under each word, its byte-pair
/// encoding with the merge ranks `ranks`.
pub struct BpeCacheContents {
    pub ranks: Map<(Seq<char>, Seq<char>), i64>,
}

impl Predicate<HashMap<String, Vec<String>>> for BpeCacheContents {
    open spec fn predicate(&self, cache: HashMap<String, Vec<String>>) -> bool {
        forall|w: Seq<char>| #[trigger]
            cache.deep_view().contains_key(w) ==> cache.deep_view()[w] == ctrl_bpe_spec(
                self.ranks,
                w,
            )
    }
}

/// `HashMap::get` on the cache of encoded words, the encoding cloned out.
///
/// Strings hash and compare by their characters, so the encoding returned
/// is the one stored under the word whose characters are those of `word`,
/// and `None` when no word has them.
#[verifier::external_body]
fn cache_get(cache: &HashMap<String, Vec<String>>, word: &str) -> (r: Option<Vec<String>>)
    ensures
        r matches Some(v) ==> cache.deep_view().contains_key(word@) && v.deep_view()
            == cache.deep_view()[word@],
        r is None ==> !cache.deep_view().contains_key(word@),
{
    cache.get(word).cloned()
}

/// `HashMap::insert` of the encoding `pieces` under `word` into the cache,
/// replacing what the word had.
#[verifier::external_body]
fn cache_insert(cache: &mut HashMap<String, Vec<String>>, word: String, pieces: Vec<String>)
    ensures
        final(cache).deep_view() == old(cache).deep_view().insert(word@, pieces.deep_view()),
{
    cache.insert(word, pieces);
}

/// A CTRL tokenizer: a vocabulary, the merges of its byte-pair encoding,
/// a cache of the words encoded so far, and the word pattern.
pub struct CtrlTokenizer {
    vocab: Rc<OpenAiGptVocab>,
    bpe_ranks: Rc<BpePairVocab>,
    special_tokens: Vec<String>,
    cache: InvCell<HashMap<String, Vec<String>>, BpeCacheContents>,
    regex_pattern: WordPattern,
}

impl CtrlTokenizer {
    /// The cache holds encodings under the merge ranks of the tokenizer.
    #[verifier::type_invariant]
    spec fn cache_matches_ranks(&self) -> bool {
        self.cache.predicate() == BpeCacheContents { ranks: self.bpe_ranks.ranks() }
    }

    /// The byte-pair encoding of `word`, from the cache if the word was
    /// encoded before, else computed and added to the cache.
    fn encode_word(&self, word: &str) -> (r: Vec<String>)
        ensures
            r.deep_view() == ctrl_bpe_spec(self.merge_ranks(), word@),
    {
        proof {
            use_type_invariant(self);
        }
        let empty: HashMap<String, Vec<String>> = HashMap::new();
        proof {
            lemma_empty_map_deep_view(empty);
        }
        let mut cache = self.cache.replace(empty);
        let encoded = match cache_get(&cache, word) {
            Some(pieces) => pieces,
            None => {
                let pieces = ctrl_bpe(word, &self.bpe_ranks);
                let kept = pieces.clone();
                assert(kept.deep_view() =~= pieces.deep_view());
                cache_insert(&mut cache, String::from_str(word), kept);
                pieces
            },
        };
        self.cache.replace(cache);
        encoded
    }

    /// The vocabulary.
    pub closed spec fn vocab_spec(&self) -> OpenAiGptVocab {
        *self.vocab
    }

    /// The merge ranks of the byte-pair encoding.
    pub closed spec fn merge_ranks(&self) -> Map<(Seq<char>, Seq<char>), i64> {
        self.bpe_ranks.ranks()
    }

    /// The special tokens of the vocabulary, in the order in which text is
    /// cut at them.
    pub closed spec fn special_order(&self) -> Seq<Seq<char>> {
        self.special_tokens.deep_view()
    }

    /// A tokenizer over the vocabulary `vocab` and the merges `merges`.
    ///
    /// Text is cut at the special tokens of `vocab` in the order in which
    /// its map of special values lists them.
    pub fn from_existing_vocab_and_merges(vocab: Rc<OpenAiGptVocab>, merges: Rc<BpePairVocab>) -> (r:
        CtrlTokenizer)
        ensures
            r.vocab_spec() == *vocab,
            r.merge_ranks() == merges.ranks(),
            r.special_order().no_duplicates(),
            forall|k: Seq<char>| #[trigger]
                r.special_order().contains(k) <==> vocab.special_values.deep_view().contains_key(k),
    {
        let special_tokens = string_map_keys(&vocab.special_values);
        let regex_pattern = WordPattern::new();
        let empty: HashMap<String, Vec<String>> = HashMap::new();
        proof {
            lemma_empty_map_deep_view(empty);
        }
        let cache = InvCell::new(empty, Ghost(BpeCacheContents { ranks: merges.ranks() }));
        CtrlTokenizer { vocab, bpe_ranks: merges, special_tokens, cache, regex_pattern }
    }

    /// The vocabulary.
    pub fn vocab(&self) -> (r: &OpenAiGptVocab)
        ensures
            *r == self.vocab_spec(),
    {
        &self.vocab
    }

    /// The tokens of `text`: the text is cut at the special tokens, which
    /// stay whole; the rest is cut into words and each word byte-pair encoded.
    pub fn tokenize(&self, text: &str) -> (r: Vec<String>)
        ensures
            r.deep_view() == ctrl_tokenize(self.merge_ranks(), self.special_order(), text@),
    {
        let ghost ranks = self.merge_ranks();
        let ghost specials = self.special_order();
        let pieces = split_on_special_tokens(text, &self.special_tokens);
        let ghost outs = pieces.deep_view().map_values(
            |p: Seq<char>| tokenize_piece(ranks, specials, p),
        );
        let mut tokenized_text: Vec<String> = Vec::new();
        for i in 0..pieces.len()
            invariant
                ranks == self.merge_ranks(),
                specials == self.special_order(),
                outs == pieces.deep_view().map_values(
                    |p: Seq<char>| tokenize_piece(ranks, specials, p),
                ),
                tokenized_text.deep_view() == outs.take(i as int).flatten(),
        {
            let ghost before = tokenized_text.deep_view();
            let ghost piece = pieces@[i as int]@;
            assert(pieces.deep_view()[i as int] == piece);
            if !contains_string(&self.special_tokens, &pieces[i]) {
                let words = find_words(&self.regex_pattern, pieces[i].as_str());
                let ghost wouts = words.deep_view().map_values(
                    |w: Seq<char>| ctrl_bpe_spec(ranks, w),
                );
                for j in 0..words.len()
                    invariant
                        ranks == self.merge_ranks(),
                        wouts == words.deep_view().map_values(
                            |w: Seq<char>| ctrl_bpe_spec(ranks, w),
                        ),
                        tokenized_text.deep_view() == before + wouts.take(j as int).flatten(),
                {
                    let ghost mid = tokenized_text@;
                    assert(mid.map_values(|x: String| x@) =~= before + wouts.take(j as int).flatten());
                    let mut encoded = self.encode_word(words[j].as_str());
                    let ghost enc = encoded@;
                    assert(words.deep_view()[j as int] == words@[j as int]@);
                    tokenized_text.append(&mut encoded);
                    proof {
                        assert(wouts.take(j + 1) =~= wouts.take(j as int).push(wouts[j as int]));
                        wouts.take(j as int).lemma_flatten_push(wouts[j as int]);
                        assert(tokenized_text.deep_view() =~= mid.map_values(|x: String| x@)
                            + enc.map_values(|x: String| x@));
                    }
                }
                assert(wouts.take(words@.len() as int) =~= wouts);
            } else {
                tokenized_text.push(pieces[i].clone());
                assert(tokenized_text.deep_view() =~= before.push(piece));
            }
            proof {
                assert(outs.take(i + 1) =~= outs.take(i as int).push(outs[i as int]));
                outs.take(i as int).lemma_flatten_push(outs[i as int]);
            }
        }
        assert(outs.take(pieces@.len() as int) =~= outs);
        tokenized_text
    }

    /// The ids of the tokens of `text`.
    pub open spec fn text_ids(&self, text: Seq<char>) -> Seq<i64> {
        ctrl_tokenize(self.merge_ranks(), self.special_order(), text).map_values(
            |t: Seq<char>| self.vocab_spec().token_id(t),
        )
    }

    /// The ids of the tokens of an optional second text.
    pub open spec fn pair_ids(&self, text: Option<&str>) -> Option<Seq<i64>> {
        match text {
            Some(t) => Some(self.text_ids(t@)),
            None => None,
        }
    }

    /// Whether encoding `text_1` (with `text_2`) to `max_len` tokens
    /// succeeds, and the count of their tokens fits in a `usize`.
    pub open spec fn encodable(
        &self,
        text_1: Seq<char>,
        text_2: Option<&str>,
        max_len: nat,
        truncation_strategy: TruncationStrategy,
        stride: nat,
    ) -> bool {
        &&& self.vocab_spec().wf()
        &&& self.text_ids(text_1).len() + opt_len(self.pair_ids(text_2)) <= usize::MAX
        &&& encode_spec(
            self.text_ids(text_1),
            self.pair_ids(text_2),
            max_len,
            truncation_strategy,
            stride,
        ) is Ok
    }

    /// The tokens of each text of `text_list`.
    pub fn tokenize_list(&self, text_list: Vec<&str>) -> (r: Vec<Vec<String>>)
        ensures
            r.len() == text_list.len(),
            forall|i: int|
                0 <= i < r.len() ==> #[trigger] r[i].deep_view() == ctrl_tokenize(
                    self.merge_ranks(),
                    self.special_order(),
                    text_list[i]@,
                ),
    {
        let mut tokenized: Vec<Vec<String>> = Vec::new();
        for i in 0..text_list.len()
            invariant
                tokenized.len() == i,
                forall|j: int|
                    0 <= j < i ==> #[trigger] tokenized[j].deep_view() == ctrl_tokenize(
                        self.merge_ranks(),
                        self.special_order(),
                        text_list[j]@,
                    ),
        {
            tokenized.push(self.tokenize(text_list[i]));
        }
        tokenized
    }

    /// The id of each token of `tokens`.
    pub fn convert_tokens_to_ids(&self, tokens: &Vec<String>) -> (r: Vec<i64>)
        requires
            self.vocab_spec().wf(),
        ensures
            r@ == tokens.deep_view().map_values(|t: Seq<char>| self.vocab_spec().token_id(t)),
    {
        let mut ids: Vec<i64> = Vec::new();
        for i in 0..tokens.len()
            invariant
                self.vocab_spec().wf(),
                ids@ =~= tokens.deep_view().map_values(
                    |t: Seq<char>| self.vocab_spec().token_id(t),
                ).take(i as int),
        {
            ids.push(self.vocab.token_to_id(tokens[i].as_str()));
        }
        ids
    }

    /// `text_1` (and `text_2`) encoded: the ids of their tokens, cut down
    /// with `truncation_strategy` to `max_len` tokens, with the segment of
    /// each token and the tokens cut off; or why they cannot be cut down so.
    pub fn encode_checked(
        &self,
        text_1: &str,
        text_2: Option<&str>,
        max_len: usize,
        truncation_strategy: &TruncationStrategy,
        stride: usize,
    ) -> (r: Result<TokenizedInput, TruncationError>)
        requires
            self.vocab_spec().wf(),
            self.text_ids(text_1@).len() + opt_len(self.pair_ids(text_2)) <= usize::MAX,
        ensures
            encoding_view(r) == encode_spec(
                self.text_ids(text_1@),
                self.pair_ids(text_2),
                max_len as nat,
                *truncation_strategy,
                stride as nat,
            ),
    {
        let token_ids_1 = self.convert_tokens_to_ids(&self.tokenize(text_1));
        let token_ids_2 = match text_2 {
            Some(text) => Some(self.convert_tokens_to_ids(&self.tokenize(text))),
            None => None,
        };
        encode_ids(token_ids_1, token_ids_2, max_len, truncation_strategy, stride)
    }

    /// `text_1` (and `text_2`) encoded, for inputs whose encoding succeeds.
    pub fn encode(
        &self,
        text_1: &str,
        text_2: Option<&str>,
        max_len: usize,
        truncation_strategy: &TruncationStrategy,
        stride: usize,
    ) -> (r: TokenizedInput)
        requires
            self.encodable(text_1@, text_2, max_len as nat, *truncation_strategy, stride as nat),
        ensures
            encode_spec(
                self.text_ids(text_1@),
                self.pair_ids(text_2),
                max_len as nat,
                *truncation_strategy,
                stride as nat,
            ) == Ok::<TokenizedInputView, TruncationError>(r@),
    {
        match self.encode_checked(text_1, text_2, max_len, truncation_strategy, stride) {
            Ok(input) => input,
            Err(_) => {
                assert(false);
                TokenizedInput {
                    token_ids: Vec::new(),
                    segment_ids: Vec::new(),
                    special_tokens_mask: Vec::new(),
                    overflowing_tokens: Vec::new(),
                    num_truncated_tokens: 0,
                }
            },
        }
    }

    /// Each text of `text_list` encoded on its own.
    pub fn encode_list(
        &self,
        text_list: Vec<&str>,
        max_len: usize,
        truncation_strategy: &TruncationStrategy,
        stride: usize,
    ) -> (r: Vec<TokenizedInput>)
        requires
            forall|i: int|
                0 <= i < text_list.len() ==> self.encodable(
                    #[trigger] text_list[i]@,
                    None,
                    max_len as nat,
                    *truncation_strategy,
                    stride as nat,
                ),
        ensures
            r.len() == text_list.len(),
            forall|i: int|
                0 <= i < r.len() ==> encode_spec(
                    self.text_ids(text_list[i]@),
                    None,
                    max_len as nat,
                    *truncation_strategy,
                    stride as nat,
                ) == Ok::<TokenizedInputView, TruncationError>(#[trigger] r[i]@),
    {
        let mut encoded: Vec<TokenizedInput> = Vec::new();
        for i in 0..text_list.len()
            invariant
                encoded.len() == i,
                forall|j: int|
                    0 <= j < text_list.len() ==> self.encodable(
                        #[trigger] text_list[j]@,
                        None,
                        max_len as nat,
                        *truncation_strategy,
                        stride as nat,
                    ),
                forall|j: int|
                    0 <= j < i ==> encode_spec(
                        self.text_ids(text_list[j]@),
                        None,
                        max_len as nat,
                        *truncation_strategy,
                        stride as nat,
                    ) == Ok::<TokenizedInputView, TruncationError>(#[trigger] encoded[j]@),
        {
            assert(self.encodable(text_list[i as int]@, None, max_len as nat, *truncation_strategy, stride as nat));
            encoded.push(self.encode(text_list[i], None, max_len, truncation_strategy, stride));
        }
        encoded
    }

    /// Each pair of texts of `text_list` encoded together.
    pub fn encode_pair_list(
        &self,
        text_list: Vec<(&str, &str)>,
        max_len: usize,
        truncation_strategy: &TruncationStrategy,
        stride: usize,
    ) -> (r: Vec<TokenizedInput>)
        requires
            forall|i: int|
                0 <= i < text_list.len() ==> self.encodable(
                    (#[trigger] text_list[i]).0@,
                    Some(text_list[i].1),
                    max_len as nat,
                    *truncation_strategy,
                    stride as nat,
                ),
        ensures
            r.len() == text_list.len(),
            forall|i: int|
                0 <= i < r.len() ==> encode_spec(
                    self.text_ids(text_list[i].0@),
                    Some(self.text_ids(text_list[i].1@)),
                    max_len as nat,
                    *truncation_strategy,
                    stride as nat,
                ) == Ok::<TokenizedInputView, TruncationError>(#[trigger] r[i]@),
    {
        let mut encoded: Vec<TokenizedInput> = Vec::new();
        for i in 0..text_list.len()
            invariant
                encoded.len() == i,
                forall|j: int|
                    0 <= j < text_list.len() ==> self.encodable(
                        (#[trigger] text_list[j]).0@,
                        Some(text_list[j].1),
                        max_len as nat,
                        *truncation_strategy,
                        stride as nat,
                    ),
                forall|j: int|
                    0 <= j < i ==> encode_spec(
                        self.text_ids(text_list[j].0@),
                        Some(self.text_ids(text_list[j].1@)),
                        max_len as nat,
                        *truncation_strategy,
                        stride as nat,
                    ) == Ok::<TokenizedInputView, TruncationError>(#[trigger] encoded[j]@),
        {
            let (text_a, text_b) = text_list[i];
            assert(self.encodable(text_list[i as int].0@, Some(text_list[i as int].1), max_len as nat, *truncation_strategy, stride as nat));
            encoded.push(self.encode(text_a, Some(text_b), max_len, truncation_strategy, stride));
        }
        encoded
    }
}

} // verus!
