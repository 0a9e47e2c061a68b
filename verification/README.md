# rust_transformers

Tokenizers for transformer language models, written in Verus. The CTRL
tokenizer is verified against a mathematical model of its output:

- `src/preprocessing/tokenizer/text.rs`: Unicode whitespace, trimming and
  splitting on a separator, over the character sequences of strings.
- `src/preprocessing/tokenizer/word_pattern.rs`: the words of a text as the
  regex `\S+\n?` finds them (through the `regex` crate).
- `src/preprocessing/tokenizer/tokenization_utils.rs`: cutting text at the
  special tokens of a vocabulary, and the byte-pair encoding of a word.
- `src/preprocessing/tokenizer/base_tokenizer.rs`: truncation strategies and
  the assembly of encoded inputs.
- `src/preprocessing/tokenizer/ctrl_tokenizer.rs`: the CTRL tokenizer.
- `src/preprocessing/vocab/`: vocabularies and merge ranks, and the readers of
  their file formats.
- `src/requests.rs`: encoding requests that name their truncation strategy.
- `app/lib.rs`: the Python module (pyo3), and reading the vocabulary and
  merges files.

Run `verus` on `src/lib.rs` to check the proofs; `tests/` holds the tests.
