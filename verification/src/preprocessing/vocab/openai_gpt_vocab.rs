//! The vocabulary of the OpenAI GPT and CTRL tokenizers.

use std::collections::HashMap;
use vstd::prelude::*;
use crate::preprocessing::vocab::base_vocab::{
    json_token_ids, map_lookup, parse_json_token_ids, singleton_string_map, string_map_get,
};

verus! {

/// A vocabulary: the id of each token, the token that stands for any
/// token outside the vocabulary, and the special tokens, which the
/// tokenizer never splits.
pub struct OpenAiGptVocab {
    pub values: HashMap<String, i64>,
    pub unknown_value: &'static str,
    pub special_values: HashMap<String, i64>,
}

/// Why a vocabulary could not be read.
#[derive(Clone, Copy, Debug, PartialEq, Eq, Structural)]
pub enum VocabError {
    /// The text is not a JSON object of integer ids.
    InvalidJson,
    /// The unknown token has no id in the vocabulary.
    MissingUnknownValue,
}

impl VocabError {
    /// The text of the message that describes the error.
    pub open spec fn message_text(&self) -> Seq<char> {
        match self {
            VocabError::InvalidJson => "The vocabulary is not a JSON object of token ids"@,
            VocabError::MissingUnknownValue => {
                "The special value <unk> could not be found in the vocabulary"@
            },
        }
    }

    /// The message that describes the error.
    pub fn message(&self) -> (r: &'static str)
        ensures
            r@ == self.message_text(),
    {
        match self {
            VocabError::InvalidJson => "The vocabulary is not a JSON object of token ids",
            VocabError::MissingUnknownValue => {
                "The special value <unk> could not be found in the vocabulary"
            },
        }
    }
}

/// The unknown token of the OpenAI GPT and CTRL vocabularies.
pub open spec fn unknown_token() -> Seq<char> {
    seq!['<', 'u', 'n', 'k', '>']
}

impl OpenAiGptVocab {
    /// The vocabulary holds an id for its unknown token.
    pub open spec fn wf(&self) -> bool {
        self.values.deep_view().contains_key(self.unknown_value@)
    }

    /// The id of `token`: its id as a special token, else its id in the
    /// vocabulary, else the id of the unknown token.
    pub open spec fn token_id(&self, token: Seq<char>) -> i64 {
        match map_lookup(self.special_values.deep_view(), token) {
            Some(id) => id,
            None => match map_lookup(self.values.deep_view(), token) {
                Some(id) => id,
                None => self.values.deep_view()[self.unknown_value@],
            },
        }
    }

    /// The unknown token: `<unk>`.
    pub fn unknown_value() -> (r: &'static str)
        ensures
            r@ == unknown_token(),
    {
        proof {
            reveal_strlit("<unk>");
        }
        "<unk>"
    }

    /// The vocabulary whose ids the JSON object `text` gives, with `<unk>`
    /// as the unknown token and as the one special token.
    pub fn from_json_text(text: &str) -> (r: Result<OpenAiGptVocab, VocabError>)
        ensures
            match json_token_ids(text@) {
                None => r == Err::<OpenAiGptVocab, VocabError>(VocabError::InvalidJson),
                Some(m) => if m.contains_key(unknown_token()) {
                    r matches Ok(v) && v.values.deep_view() == m && v.unknown_value@ == unknown_token()
                        && v.special_values.deep_view() == Map::<Seq<char>, i64>::empty().insert(
                        unknown_token(),
                        m[unknown_token()],
                    ) && v.wf()
                } else {
                    r == Err::<OpenAiGptVocab, VocabError>(VocabError::MissingUnknownValue)
                },
            },
    {
        let values = match parse_json_token_ids(text) {
            Some(values) => values,
            None => {
                return Err(VocabError::InvalidJson);
            },
        };
        let unknown_value = OpenAiGptVocab::unknown_value();
        match string_map_get(&values, unknown_value) {
            Some(id) => {
                let special_values = singleton_string_map(unknown_value, id);
                Ok(OpenAiGptVocab { values, unknown_value, special_values })
            },
            None => Err(VocabError::MissingUnknownValue),
        }
    }

    /// A special token has its special id; any other token in the
    /// vocabulary keeps its id there; only a token found in neither gets the
    /// id of the unknown token.
    pub proof fn lemma_token_id_lookup(&self, token: Seq<char>)
        ensures
            self.special_values.deep_view().contains_key(token) ==> self.token_id(token)
                == self.special_values.deep_view()[token],
            !self.special_values.deep_view().contains_key(token)
                && self.values.deep_view().contains_key(token) ==> self.token_id(token)
                == self.values.deep_view()[token],
            !self.special_values.deep_view().contains_key(token)
                && !self.values.deep_view().contains_key(token) ==> self.token_id(token)
                == self.values.deep_view()[self.unknown_value@],
    {
    }

    /// The id of `token`.
    pub fn token_to_id(&self, token: &str) -> (r: i64)
        requires
            self.wf(),
        ensures
            r == self.token_id(token@),
    {
        match string_map_get(&self.special_values, token) {
            Some(id) => id,
            None => match string_map_get(&self.values, token) {
                Some(id) => id,
                None => match string_map_get(&self.values, self.unknown_value) {
                    Some(id) => id,
                    None => {
                        assert(false);
                        0
                    },
                },
            },
        }
    }
}

} // verus!
