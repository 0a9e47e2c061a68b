//! The words of a text, as the regex `\S+\n?` finds them: runs of
//! non-whitespace characters, each with the line break that follows it.

use vstd::prelude::*;
use crate::preprocessing::tokenizer::text::is_white_space;

verus! {

#[verifier::external_type_specification]
#[verifier::external_body]
pub struct ExRegex(regex::Regex);

/// The number of non-whitespace characters that `s` starts with.
pub open spec fn word_run(s: Seq<char>) -> nat
    decreases s.len(),
{
    if s.len() == 0 || is_white_space(s[0]) {
        0
    } else {
        1 + word_run(s.drop_first())
    }
}

pub proof fn lemma_word_run(s: Seq<char>)
    ensures
        word_run(s) <= s.len(),
        s.len() > 0 && !is_white_space(s[0]) ==> word_run(s) >= 1,
        forall|i: int| 0 <= i < word_run(s) ==> !is_white_space(#[trigger] s[i]),
        word_run(s) < s.len() ==> is_white_space(s[word_run(s) as int]),
    decreases s.len(),
{
    if s.len() > 0 && !is_white_space(s[0]) {
        lemma_word_run(s.drop_first());
        assert forall|i: int| 0 <= i < word_run(s) implies !is_white_space(#[trigger] s[i]) by {
            if i > 0 {
                assert(s[i] == s.drop_first()[i - 1]);
            }
        }
    }
}

/// The successive matches of the regex `\S+\n?` in `s`: each maximal run
/// of non-whitespace characters, followed by the line break `\n` that
/// comes right after it, if one does.
pub open spec fn word_matches(s: Seq<char>) -> Seq<Seq<char>>
    decreases s.len(),
{
    if s.len() == 0 {
        seq![]
    } else if is_white_space(s[0]) {
        word_matches(s.drop_first())
    } else {
        let n = word_run(s) as int;
        let m = if n < s.len() && s[n] == '\n' {
            n + 1
        } else {
            n
        };
        proof {
            lemma_word_run(s);
        }
        seq![s.take(m)] + word_matches(s.skip(m))
    }
}

/// The pattern `\S+\n?`, character by character.
pub open spec fn word_pattern_source() -> Seq<char> {
    seq!['\\', 'S', '+', '\\', 'n', '?']
}

/// The compiled regex `\S+\n?`. Its one constructor compiles that
/// pattern, so every value of this type matches words as `word_matches`
/// states.
pub struct WordPattern {
    regex: regex::Regex,
}

/// `regex::Regex::new` on `pattern`, which is `\S+\n?`.
///
/// That pattern is valid and small, so compiling it succeeds.
#[verifier::external_body]
fn compile_word_pattern(pattern: &str) -> (r: WordPattern)
    requires
        pattern@ == word_pattern_source(),
{
    WordPattern { regex: regex::Regex::new(pattern).unwrap() }
}

/// `regex::Regex::find_iter` with the regex `\S+\n?`, each match taken as
/// the string it matched.
///
/// The regex crate yields the successive non-overlapping leftmost-first
/// matches; its class `\S` is every character outside the Unicode
/// `White_Space` property. For this pattern, where no match is empty, the
/// matches are the maximal runs of non-whitespace characters, each
/// extended by a directly following `\n`.
#[verifier::external_body]
pub(crate) fn find_words(pattern: &WordPattern, text: &str) -> (r: Vec<String>)
    ensures
        r.deep_view() == word_matches(text@),
{
    pattern.regex.find_iter(text).map(|m| m.as_str().to_string()).collect()
}

impl WordPattern {
    /// The regex `\S+\n?`.
    pub fn new() -> WordPattern {
        let pattern = "\\S+\\n?";
        proof {
            reveal_strlit("\\S+\\n?");
        }
        assert(pattern@ =~= word_pattern_source());
        compile_word_pattern(pattern)
    }
}

} // verus!
