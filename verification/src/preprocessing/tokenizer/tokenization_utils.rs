//! Splitting text on the special tokens of a vocabulary, and the byte-pair
//! encoding of single words.

use vstd::prelude::*;
use crate::preprocessing::vocab::base_vocab::map_lookup;
use crate::preprocessing::vocab::bpe_vocab::BpePairVocab;
use crate::preprocessing::tokenizer::text::{
    lemma_find_from, chars_of, pieces_of, split_by, split_ranges, trim, trim_bounds,
};

verus! {

/// What `split_with_separator` makes of the `i`-th piece of `parts`, the
/// pieces of a text split on `sep`: the piece trimmed, preceded and
/// followed by the separator where the text had one.
///
/// A first piece that trims to nothing gives the separator alone, also
/// when there is no separator in the text at all.
pub open spec fn separator_piece(parts: Seq<Seq<char>>, i: int, sep: Seq<char>) -> Seq<Seq<char>> {
    let trimmed = trim(parts[i]);
    if i == 0 && trimmed.len() == 0 {
        seq![sep]
    } else if i == parts.len() - 1 {
        seq![trimmed]
    } else if trimmed.len() == 0 {
        seq![sep]
    } else {
        seq![trimmed, sep]
    }
}

/// The output of `separator_piece` for every piece of `parts`.
pub open spec fn separator_pieces(parts: Seq<Seq<char>>, sep: Seq<char>) -> Seq<Seq<Seq<char>>> {
    Seq::new(parts.len(), |i: int| separator_piece(parts, i, sep))
}

/// `text` split on `sep`, each piece trimmed and the separators kept as
/// pieces of their own; an empty text stays a single empty piece.
pub open spec fn split_with_separator_spec(text: Seq<char>, sep: Seq<char>) -> Seq<Seq<char>> {
    if text.len() == 0 {
        seq![text]
    } else {
        separator_pieces(split_by(text, sep), sep).flatten()
    }
}

/// Splits `text` on every occurrence of `separator`, trims the pieces
/// and keeps the separator as a piece between them.
pub fn split_with_separator(text: &str, separator: &str) -> (r: Vec<String>)
    ensures
        r.deep_view() == split_with_separator_spec(text@, separator@),
{
    let chars = chars_of(text);
    if chars.len() == 0 {
        let r = vec![String::from_str(text)];
        assert(r.deep_view() =~= seq![text@]);
        return r;
    }
    let sep_chars = chars_of(separator);
    let ranges = split_ranges(&chars, &sep_chars);
    let ghost parts = split_by(text@, separator@);
    let ghost outs = separator_pieces(parts, separator@);
    let n = ranges.len();
    assert(pieces_of(chars@, ranges@).len() == n);
    let mut result: Vec<String> = Vec::new();
    for i in 0..n
        invariant
            n == ranges@.len() == parts.len() == outs.len(),
            chars@ == text@,
            pieces_of(chars@, ranges@) == parts,
            forall|j: int| 0 <= j < n ==> #[trigger] ranges@[j].0 <= ranges@[j].1 <= chars@.len(),
            outs == separator_pieces(parts, separator@),
            result.deep_view() == outs.take(i as int).flatten(),
    {
        let (a, b) = trim_bounds(&chars, ranges[i].0, ranges[i].1);
        assert(parts[i as int] == chars@.subrange(ranges@[i as int].0 as int, ranges@[i as int].1 as int));
        let ghost before = result@;
        if i == 0 && a == b {
            result.push(String::from_str(separator));
        } else if i == n - 1 {
            result.push(String::from_str(text.substring_char(a, b)));
        } else {
            if a < b {
                result.push(String::from_str(text.substring_char(a, b)));
            }
            result.push(String::from_str(separator));
        }
        proof {
            assert(outs.take(i + 1) =~= outs.take(i as int).push(outs[i as int]));
            outs.take(i as int).lemma_flatten_push(outs[i as int]);
            assert(result.deep_view() =~= before.map_values(|x: String| x@) + outs[i as int]);
        }
    }
    assert(outs.take(n as int) =~= outs);
    result
}

/// What one pass over the separator `sep` makes of `pieces`: a piece that
/// is itself a special token stays whole, any other is split on `sep`.
pub open spec fn separate_pieces(
    pieces: Seq<Seq<char>>,
    sep: Seq<char>,
    specials: Seq<Seq<char>>,
) -> Seq<Seq<Seq<char>>> {
    Seq::new(
        pieces.len(),
        |i: int|
            if specials.contains(pieces[i]) {
                seq![pieces[i]]
            } else {
                split_with_separator_spec(pieces[i], sep)
            },
    )
}

/// The passes over each separator of `seps` in turn.
pub open spec fn separate_all(
    pieces: Seq<Seq<char>>,
    seps: Seq<Seq<char>>,
    specials: Seq<Seq<char>>,
) -> Seq<Seq<char>>
    decreases seps.len(),
{
    if seps.len() == 0 {
        pieces
    } else {
        separate_all(separate_pieces(pieces, seps[0], specials).flatten(), seps.drop_first(), specials)
    }
}

/// `text` cut at the special tokens `specials`, taken in the order given.
pub open spec fn split_on_special_tokens_spec(text: Seq<char>, specials: Seq<Seq<char>>) -> Seq<
    Seq<char>,
> {
    separate_all(seq![text], specials, specials)
}

/// Whether `s` is one of the strings of `list`.
pub fn contains_string(list: &Vec<String>, s: &String) -> (r: bool)
    ensures
        r == list.deep_view().contains(s@),
{
    let mut i: usize = 0;
    while i < list.len()
        invariant
            i <= list.len(),
            forall|j: int| 0 <= j < i ==> list@[j]@ != s@,
        decreases list.len() - i,
    {
        if list[i] == *s {
            assert(list.deep_view()[i as int] == s@);
            return true;
        }
        i = i + 1;
    }
    assert forall|j: int| 0 <= j < list.deep_view().len() implies list.deep_view()[j] != s@ by {
        assert(list.deep_view()[j] == list@[j]@);
    }
    false
}

/// Cuts `text` at every occurrence of each special token of
/// `special_tokens`, taken in turn: the special tokens become pieces of
/// their own, the text between them is trimmed.
pub fn split_on_special_tokens(text: &str, special_tokens: &Vec<String>) -> (r: Vec<String>)
    ensures
        r.deep_view() == split_on_special_tokens_spec(text@, special_tokens.deep_view()),
{
    let ghost specials = special_tokens.deep_view();
    let mut text_list: Vec<String> = vec![String::from_str(text)];
    assert(text_list.deep_view() =~= seq![text@]);
    assert(specials.skip(0) =~= specials);
    for k in 0..special_tokens.len()
        invariant
            specials == special_tokens.deep_view(),
            split_on_special_tokens_spec(text@, specials) == separate_all(
                text_list.deep_view(),
                specials.skip(k as int),
                specials,
            ),
    {
        let ghost pieces = text_list.deep_view();
        let ghost outs = separate_pieces(pieces, specials[k as int], specials);
        let mut temp: Vec<String> = Vec::new();
        for i in 0..text_list.len()
            invariant
                pieces == text_list.deep_view(),
                specials == special_tokens.deep_view(),
                0 <= k < specials.len(),
                outs == separate_pieces(pieces, specials[k as int], specials),
                temp.deep_view() == outs.take(i as int).flatten(),
        {
            let ghost before = temp@;
            assert(pieces[i as int] == text_list@[i as int]@);
            if contains_string(special_tokens, &text_list[i]) {
                temp.push(text_list[i].clone());
            } else {
                let mut parts = split_with_separator(text_list[i].as_str(), special_tokens[k].as_str());
                let ghost parts_view = parts@;
                temp.append(&mut parts);
                assert(temp@ =~= before + parts_view);
            }
            proof {
                assert(outs.take(i + 1) =~= outs.take(i as int).push(outs[i as int]));
                outs.take(i as int).lemma_flatten_push(outs[i as int]);
                assert(temp.deep_view() =~= before.map_values(|x: String| x@) + outs[i as int]);
            }
        }
        assert(outs.take(text_list@.len() as int) =~= outs);
        assert(specials.skip(k as int).drop_first() =~= specials.skip(k + 1));
        text_list = temp;
    }
    assert(specials.skip(special_tokens@.len() as int) =~= Seq::<Seq<char>>::empty());
    text_list
}

/// The rank of merging the symbols `a` and `b`, if they may be merged.
pub open spec fn pair_rank(ranks: Map<(Seq<char>, Seq<char>), i64>, a: Seq<char>, b: Seq<char>) -> Option<
    i64,
> {
    map_lookup(ranks, (a, b))
}

/// Among the adjacent pairs `(toks[j], toks[j + 1])` with `j < n` that may
/// be merged, the first one of lowest rank: its position and its rank.
pub open spec fn best_pair_before(
    ranks: Map<(Seq<char>, Seq<char>), i64>,
    toks: Seq<Seq<char>>,
    n: int,
) -> Option<(int, i64)>
    decreases n,
{
    if n <= 0 {
        None
    } else {
        let prev = best_pair_before(ranks, toks, n - 1);
        match pair_rank(ranks, toks[n - 1], toks[n]) {
            None => prev,
            Some(r) => match prev {
                Some(p) => if r < p.1 {
                    Some((n - 1, r))
                } else {
                    prev
                },
                None => Some((n - 1, r)),
            },
        }
    }
}

/// The first adjacent pair of `toks` of lowest rank, if any pair may be merged.
pub open spec fn best_pair(ranks: Map<(Seq<char>, Seq<char>), i64>, toks: Seq<Seq<char>>) -> Option<
    (int, i64),
> {
    best_pair_before(ranks, toks, toks.len() - 1)
}

/// `toks` with every occurrence of `a` followed by `b`, taken from left to
/// right, merged into one symbol.
pub open spec fn merge_pair(toks: Seq<Seq<char>>, a: Seq<char>, b: Seq<char>) -> Seq<Seq<char>>
    decreases toks.len(),
{
    if toks.len() == 0 {
        seq![]
    } else if toks.len() >= 2 && toks[0] == a && toks[1] == b {
        seq![a + b] + merge_pair(toks.skip(2), a, b)
    } else {
        seq![toks[0]] + merge_pair(toks.skip(1), a, b)
    }
}

pub proof fn lemma_best_pair_before(
    ranks: Map<(Seq<char>, Seq<char>), i64>,
    toks: Seq<Seq<char>>,
    n: int,
)
    ensures
        best_pair_before(ranks, toks, n) matches Some(p) ==> {
            &&& 0 <= p.0 < n
            &&& pair_rank(ranks, toks[p.0], toks[p.0 + 1]) == Some(p.1)
            &&& forall|j: int|
                0 <= j < n && #[trigger] pair_rank(ranks, toks[j], toks[j + 1]) is Some
                    ==> p.1 <= pair_rank(ranks, toks[j], toks[j + 1])->0
        },
        best_pair_before(ranks, toks, n) is None ==> forall|j: int|
            0 <= j < n ==> #[trigger] pair_rank(ranks, toks[j], toks[j + 1]) is None,
    decreases n,
{
    if n > 0 {
        lemma_best_pair_before(ranks, toks, n - 1);
    }
}

pub proof fn lemma_merge_pair_len(toks: Seq<Seq<char>>, a: Seq<char>, b: Seq<char>)
    ensures
        merge_pair(toks, a, b).len() <= toks.len(),
    decreases toks.len(),
{
    if toks.len() == 0 {
    } else if toks.len() >= 2 && toks[0] == a && toks[1] == b {
        lemma_merge_pair_len(toks.skip(2), a, b);
    } else {
        lemma_merge_pair_len(toks.skip(1), a, b);
    }
}

pub proof fn lemma_merge_pair_shrinks(toks: Seq<Seq<char>>, a: Seq<char>, b: Seq<char>, i: int)
    requires
        0 <= i < toks.len() - 1,
        toks[i] == a,
        toks[i + 1] == b,
    ensures
        merge_pair(toks, a, b).len() < toks.len(),
    decreases toks.len(),
{
    if toks.len() >= 2 && toks[0] == a && toks[1] == b {
        lemma_merge_pair_len(toks.skip(2), a, b);
    } else {
        assert(toks.skip(1)[i - 1] == a && toks.skip(1)[i] == b);
        lemma_merge_pair_shrinks(toks.skip(1), a, b, i - 1);
    }
}

/// The merges of byte-pair encoding applied to `toks`: the best pair is
/// merged wherever it occurs, until no pair may be merged or one symbol is left.
pub open spec fn bpe_merges(ranks: Map<(Seq<char>, Seq<char>), i64>, toks: Seq<Seq<char>>) -> Seq<
    Seq<char>,
>
    decreases toks.len(),
{
    match best_pair(ranks, toks) {
        None => toks,
        Some(p) => {
            let merged = merge_pair(toks, toks[p.0], toks[p.0 + 1]);
            proof {
                lemma_best_pair_before(ranks, toks, toks.len() - 1);
                lemma_merge_pair_shrinks(toks, toks[p.0], toks[p.0 + 1], p.0);
            }
            if merged.len() <= 1 {
                merged
            } else {
                bpe_merges(ranks, merged)
            }
        },
    }
}

/// The marker that ends the last symbol of a word: `</w>`.
pub open spec fn end_of_word() -> Seq<char> {
    seq!['<', '/', 'w', '>']
}

/// The marker of a symbol that the next one continues: `@@`.
pub open spec fn continuation() -> Seq<char> {
    seq!['@', '@']
}

/// The symbols that byte-pair encoding starts from: one per character of
/// `word`, the last one followed by `</w>`.
pub open spec fn initial_symbols(word: Seq<char>) -> Seq<Seq<char>> {
    Seq::new(
        word.len(),
        |i: int|
            if i == word.len() - 1 {
                seq![word[i]] + end_of_word()
            } else {
                seq![word[i]]
            },
    )
}

/// The output form of merged symbols: `@@` after each symbol but the
/// last, and the last one without its `</w>`.
pub open spec fn mark_symbols(toks: Seq<Seq<char>>) -> Seq<Seq<char>> {
    Seq::new(
        toks.len(),
        |i: int|
            if i < toks.len() - 1 {
                toks[i] + continuation()
            } else {
                toks[i].take(toks[i].len() - 4)
            },
    )
}

/// The CTRL byte-pair encoding of `word` under the merge ranks `ranks`.
pub open spec fn ctrl_bpe_spec(ranks: Map<(Seq<char>, Seq<char>), i64>, word: Seq<char>) -> Seq<
    Seq<char>,
> {
    mark_symbols(bpe_merges(ranks, initial_symbols(word)))
}

/// Whether `s` ends with `e`.
pub open spec fn ends_with(s: Seq<char>, e: Seq<char>) -> bool {
    e.len() <= s.len() && s.subrange(s.len() - e.len(), s.len() as int) =~= e
}

pub proof fn lemma_merge_pair_last(toks: Seq<Seq<char>>, a: Seq<char>, b: Seq<char>, e: Seq<char>)
    requires
        toks.len() > 0,
        ends_with(toks.last(), e),
    ensures
        merge_pair(toks, a, b).len() > 0,
        ends_with(merge_pair(toks, a, b).last(), e),
    decreases toks.len(),
{
    let m = merge_pair(toks, a, b);
    if toks.len() >= 2 && toks[0] == a && toks[1] == b {
        let rest = toks.skip(2);
        if rest.len() > 0 {
            assert(rest.last() == toks.last());
            lemma_merge_pair_last(rest, a, b, e);
        } else {
            assert(merge_pair(rest, a, b) =~= Seq::<Seq<char>>::empty());
            assert(m =~= seq![a + b]);
            let ab = a + b;
            assert(ab.subrange(ab.len() - e.len(), ab.len() as int) =~= b.subrange(
                b.len() - e.len(),
                b.len() as int,
            ));
        }
    } else {
        let rest = toks.skip(1);
        if rest.len() > 0 {
            assert(rest.last() == toks.last());
            lemma_merge_pair_last(rest, a, b, e);
        } else {
            assert(merge_pair(rest, a, b) =~= Seq::<Seq<char>>::empty());
            assert(m =~= seq![toks[0]]);
        }
    }
}

/// The symbol made of the single character `c`: `char::to_string`.
#[verifier::external_body]
fn char_to_string(c: char) -> (s: String)
    ensures
        s@ == seq![c],
{
    c.to_string()
}

/// The position and rank of the first adjacent pair of `toks` of lowest
/// rank, if any pair may be merged.
fn find_best_pair(bpe_ranks: &BpePairVocab, toks: &Vec<String>) -> (r: Option<(usize, i64)>)
    ensures
        match r {
            None => best_pair(bpe_ranks.ranks(), toks.deep_view()) is None,
            Some(p) => best_pair(bpe_ranks.ranks(), toks.deep_view()) == Some((p.0 as int, p.1)),
        },
{
    let ghost ranks = bpe_ranks.ranks();
    let ghost t = toks.deep_view();
    if toks.len() < 2 {
        return None;
    }
    let mut best: Option<(usize, i64)> = None;
    let mut j: usize = 0;
    while j + 1 < toks.len()
        invariant
            j + 1 <= toks.len(),
            t == toks.deep_view(),
            ranks == bpe_ranks.ranks(),
            match best {
                None => best_pair_before(ranks, t, j as int) is None,
                Some(p) => best_pair_before(ranks, t, j as int) == Some((p.0 as int, p.1)),
            },
        decreases toks.len() - j,
    {
        let key = (toks[j].clone(), toks[j + 1].clone());
        assert(key.deep_view() == (t[j as int], t[j + 1]));
        let rank = bpe_ranks.byte_pair_to_id(&key);
        match rank {
            Some(r) => match best {
                Some(p) => {
                    if r < p.1 {
                        best = Some((j, r));
                    }
                },
                None => {
                    best = Some((j, r));
                },
            },
            None => {},
        }
        j = j + 1;
    }
    best
}

/// `toks` with every occurrence of `a` followed by `b` merged, from left to right.
fn merge_symbols(toks: &Vec<String>, a: &String, b: &String) -> (r: Vec<String>)
    ensures
        r.deep_view() == merge_pair(toks.deep_view(), a@, b@),
{
    let ghost t = toks.deep_view();
    let mut out: Vec<String> = Vec::new();
    let mut i: usize = 0;
    assert(t.skip(0) =~= t);
    assert(out.deep_view() =~= Seq::<Seq<char>>::empty());
    while i < toks.len()
        invariant
            i <= toks.len(),
            t == toks.deep_view(),
            merge_pair(t, a@, b@) == out.deep_view() + merge_pair(t.skip(i as int), a@, b@),
        decreases toks.len() - i,
    {
        let ghost before = out.deep_view();
        let ghost rest = t.skip(i as int);
        assert(rest[0] == t[i as int]);
        if i + 1 < toks.len() && toks[i] == *a && toks[i + 1] == *b {
            let mut m = a.clone();
            m.append(b.as_str());
            out.push(m);
            assert(rest.skip(2) =~= t.skip(i + 2));
            assert(out.deep_view() =~= before.push(a@ + b@));
            assert(merge_pair(t, a@, b@) =~= out.deep_view() + merge_pair(t.skip(i + 2), a@, b@));
            i = i + 2;
        } else {
            out.push(toks[i].clone());
            assert(rest.skip(1) =~= t.skip(i + 1));
            assert(out.deep_view() =~= before.push(t[i as int]));
            assert(merge_pair(t, a@, b@) =~= out.deep_view() + merge_pair(t.skip(i + 1), a@, b@));
            i = i + 1;
        }
    }
    assert(t.skip(i as int) =~= Seq::<Seq<char>>::empty());
    assert(merge_pair(t, a@, b@) =~= out.deep_view());
    out
}

/// The CTRL byte-pair encoding of `token`: its characters, the last one
/// followed by `</w>`, merged pair by pair in the order of `bpe_ranks`;
/// every symbol but the last is then followed by `@@` and the last loses
/// its `</w>`.
pub fn ctrl_bpe(token: &str, bpe_ranks: &BpePairVocab) -> (r: Vec<String>)
    ensures
        r.deep_view() == ctrl_bpe_spec(bpe_ranks.ranks(), token@),
{
    let ghost ranks = bpe_ranks.ranks();
    let ghost init = initial_symbols(token@);
    let chars = chars_of(token);
    let n = chars.len();
    if n == 0 {
        assert(init =~= Seq::<Seq<char>>::empty());
        assert(bpe_merges(ranks, init) == init);
        let r: Vec<String> = Vec::new();
        assert(r.deep_view() =~= mark_symbols(init));
        return r;
    }
    let mut toks: Vec<String> = Vec::new();
    for i in 0..n
        invariant
            n == chars@.len() == token@.len(),
            chars@ == token@,
            init == initial_symbols(token@),
            toks.deep_view() == init.take(i as int),
    {
        let ghost before = toks@;
        assert(before.map_values(|x: String| x@) =~= init.take(i as int));
        let mut sym = char_to_string(chars[i]);
        if i == n - 1 {
            proof {
                reveal_strlit("</w>");
            }
            sym.append("</w>");
        }
        assert(sym@ =~= init[i as int]);
        toks.push(sym);
        assert(toks.deep_view() =~= before.map_values(|x: String| x@).push(init[i as int]));
        assert(toks.deep_view() =~= init.take(i + 1));
    }
    assert(init.take(n as int) =~= init);
    assert(ends_with(toks.deep_view().last(), end_of_word()));
    loop
        invariant
            ranks == bpe_ranks.ranks(),
            bpe_merges(ranks, init) == bpe_merges(ranks, toks.deep_view()),
            toks.len() > 0,
            ends_with(toks.deep_view().last(), end_of_word()),
        ensures
            bpe_merges(ranks, init) == toks.deep_view(),
            toks.len() > 0,
            ends_with(toks.deep_view().last(), end_of_word()),
        decreases toks.len(),
    {
        let ghost t = toks.deep_view();
        match find_best_pair(bpe_ranks, &toks) {
            None => {
                break ;
            },
            Some(p) => {
                proof {
                    lemma_best_pair_before(ranks, t, t.len() - 1);
                }
                let first = toks[p.0].clone();
                let second = toks[p.0 + 1].clone();
                let merged = merge_symbols(&toks, &first, &second);
                proof {
                    lemma_merge_pair_shrinks(t, first@, second@, p.0 as int);
                    lemma_merge_pair_last(t, first@, second@, end_of_word());
                }
                if merged.len() <= 1 {
                    toks = merged;
                    break ;
                }
                toks = merged;
            },
        }
    }
    let ghost merged = toks.deep_view();
    let ghost marked = mark_symbols(merged);
    let m = toks.len();
    let mut out: Vec<String> = Vec::new();
    for i in 0..m
        invariant
            m == toks.len() > 0,
            merged == toks.deep_view(),
            marked == mark_symbols(merged),
            ends_with(merged.last(), end_of_word()),
            out.deep_view() == marked.take(i as int),
    {
        let ghost before = out@;
        assert(before.map_values(|x: String| x@) =~= marked.take(i as int));
        assert(toks@[i as int]@ == merged[i as int]);
        if i < m - 1 {
            let mut sym = toks[i].clone();
            proof {
                reveal_strlit("@@");
            }
            sym.append("@@");
            assert(sym@ =~= marked[i as int]);
            out.push(sym);
        } else {
            let last = toks[i].as_str();
            let len = last.unicode_len();
            let sym = String::from_str(last.substring_char(0, len - 4));
            assert(sym@ =~= marked[i as int]);
            out.push(sym);
        }
        assert(out.deep_view() =~= before.map_values(|x: String| x@).push(marked[i as int]));
        assert(out.deep_view() =~= marked.take(i + 1));
    }
    assert(marked.take(m as int) =~= marked);
    out
}

/// The pieces of an encoded word with their `@@` markers removed: the
/// last two characters of every piece but the last.
pub open spec fn unmark_symbols(pieces: Seq<Seq<char>>) -> Seq<Seq<char>> {
    Seq::new(
        pieces.len(),
        |i: int|
            if i < pieces.len() - 1 {
                pieces[i].take(pieces[i].len() - 2)
            } else {
                pieces[i]
            },
    )
}

proof fn lemma_flatten_prepend(x: Seq<char>, rest: Seq<Seq<char>>)
    ensures
        (seq![x] + rest).flatten() == x + rest.flatten(),
{
    assert((seq![x] + rest).drop_first() =~= rest);
    assert((seq![x] + rest).first() == x);
}

pub proof fn lemma_merge_pair_flatten(toks: Seq<Seq<char>>, a: Seq<char>, b: Seq<char>)
    ensures
        merge_pair(toks, a, b).flatten() == toks.flatten(),
    decreases toks.len(),
{
    if toks.len() == 0 {
    } else if toks.len() >= 2 && toks[0] == a && toks[1] == b {
        lemma_merge_pair_flatten(toks.skip(2), a, b);
        lemma_flatten_prepend(a + b, merge_pair(toks.skip(2), a, b));
        assert(toks.drop_first() =~= seq![b] + toks.skip(2));
        assert(toks =~= seq![a] + toks.drop_first());
        lemma_flatten_prepend(a, toks.drop_first());
        lemma_flatten_prepend(b, toks.skip(2));
        assert((a + b) + toks.skip(2).flatten() =~= a + (b + toks.skip(2).flatten()));
    } else {
        lemma_merge_pair_flatten(toks.skip(1), a, b);
        lemma_flatten_prepend(toks[0], merge_pair(toks.skip(1), a, b));
        assert(toks =~= seq![toks[0]] + toks.skip(1));
        lemma_flatten_prepend(toks[0], toks.skip(1));
    }
}

pub proof fn lemma_bpe_merges_flatten(ranks: Map<(Seq<char>, Seq<char>), i64>, toks: Seq<Seq<char>>)
    ensures
        bpe_merges(ranks, toks).flatten() == toks.flatten(),
        toks.len() > 0 && ends_with(toks.last(), end_of_word()) ==> bpe_merges(ranks, toks).len() > 0
            && ends_with(bpe_merges(ranks, toks).last(), end_of_word()),
    decreases toks.len(),
{
    match best_pair(ranks, toks) {
        None => {},
        Some(p) => {
            lemma_best_pair_before(ranks, toks, toks.len() - 1);
            let merged = merge_pair(toks, toks[p.0], toks[p.0 + 1]);
            lemma_merge_pair_shrinks(toks, toks[p.0], toks[p.0 + 1], p.0);
            lemma_merge_pair_flatten(toks, toks[p.0], toks[p.0 + 1]);
            if toks.len() > 0 && ends_with(toks.last(), end_of_word()) {
                lemma_merge_pair_last(toks, toks[p.0], toks[p.0 + 1], end_of_word());
            }
            if merged.len() > 1 {
                lemma_bpe_merges_flatten(ranks, merged);
            }
        },
    }
}

proof fn lemma_flatten_singletons(w: Seq<char>, n: int)
    requires
        0 <= n <= w.len(),
    ensures
        Seq::new(n as nat, |i: int| seq![w[i]]).flatten_alt() == w.take(n),
    decreases n,
{
    let s = Seq::new(n as nat, |i: int| seq![w[i]]);
    if n == 0 {
        assert(w.take(0) =~= Seq::<char>::empty());
    } else {
        lemma_flatten_singletons(w, n - 1);
        assert(s.drop_last() =~= Seq::new((n - 1) as nat, |i: int| seq![w[i]]));
        assert(w.take(n) =~= w.take(n - 1) + seq![w[n - 1]]);
    }
}

pub proof fn lemma_initial_symbols_flatten(w: Seq<char>)
    requires
        w.len() > 0,
    ensures
        initial_symbols(w).flatten() == w + end_of_word(),
        ends_with(initial_symbols(w).last(), end_of_word()),
{
    let init = initial_symbols(w);
    let n = w.len() - 1;
    lemma_flatten_singletons(w, n);
    assert(init.drop_last() =~= Seq::new(n as nat, |i: int| seq![w[i]]));
    init.lemma_flatten_and_flatten_alt_are_equivalent();
    assert(w.take(n) + (seq![w[n]] + end_of_word()) =~= w + end_of_word());
    let l = init.last();
    assert(l.subrange(l.len() - 4, l.len() as int) =~= end_of_word());
}

/// Byte-pair encoding loses no character: with the `@@` markers removed,
/// the pieces of the encoding of a word, put end to end, are the word.
pub proof fn lemma_ctrl_bpe_reassembles(ranks: Map<(Seq<char>, Seq<char>), i64>, word: Seq<char>)
    ensures
        unmark_symbols(ctrl_bpe_spec(ranks, word)).flatten() == word,
{
    if word.len() == 0 {
        let init = initial_symbols(word);
        assert(init =~= Seq::<Seq<char>>::empty());
        assert(bpe_merges(ranks, init) == init);
        assert(unmark_symbols(ctrl_bpe_spec(ranks, word)) =~= Seq::<Seq<char>>::empty());
        assert(word =~= Seq::<char>::empty());
    } else {
        let init = initial_symbols(word);
        lemma_initial_symbols_flatten(word);
        lemma_bpe_merges_flatten(ranks, init);
        let t = bpe_merges(ranks, init);
        let u = unmark_symbols(mark_symbols(t));
        let l = t.last();
        assert(u.drop_last() =~= t.drop_last()) by {
            assert forall|i: int| 0 <= i < t.len() - 1 implies u[i] == t[i] by {
                assert((t[i] + continuation()).take(t[i].len() as int) =~= t[i]);
            }
        }
        assert(u.last() == l.take(l.len() - 4));
        u.lemma_flatten_and_flatten_alt_are_equivalent();
        t.lemma_flatten_and_flatten_alt_are_equivalent();
        let front = t.drop_last().flatten_alt();
        assert(front + l == word + end_of_word());
        assert(l =~= l.take(l.len() - 4) + end_of_word());
        assert(front + l =~= (front + l.take(l.len() - 4)) + end_of_word());
        assert((word + end_of_word()).take(word.len() as int) =~= word);
        assert(((front + l.take(l.len() - 4)) + end_of_word()).take(
            (front + l.take(l.len() - 4)).len() as int,
        ) =~= front + l.take(l.len() - 4));
    }
}

/// Byte-pair encoding runs until it is done: at its end one symbol is left,
/// or no two adjacent symbols form a pair that `ranks` lists.
pub proof fn lemma_bpe_merges_leaves_no_listed_pair(
    ranks: Map<(Seq<char>, Seq<char>), i64>,
    toks: Seq<Seq<char>>,
)
    ensures
        ({
            let r = bpe_merges(ranks, toks);
            r.len() <= 1 || forall|i: int|
                0 <= i < r.len() - 1 ==> !ranks.contains_key((#[trigger] r[i], r[i + 1]))
        }),
    decreases toks.len(),
{
    lemma_best_pair_before(ranks, toks, toks.len() - 1);
    match best_pair(ranks, toks) {
        None => {
            assert forall|i: int| 0 <= i < toks.len() - 1 implies !ranks.contains_key(
                (#[trigger] toks[i], toks[i + 1]),
            ) by {
                assert(pair_rank(ranks, toks[i], toks[i + 1]) is None);
            }
        },
        Some(p) => {
            let merged = merge_pair(toks, toks[p.0], toks[p.0 + 1]);
            lemma_merge_pair_shrinks(toks, toks[p.0], toks[p.0 + 1], p.0);
            if merged.len() > 1 {
                lemma_bpe_merges_leaves_no_listed_pair(ranks, merged);
            }
        },
    }
}

/// The number of pieces of `pieces` that are `x`.
pub open spec fn count_of(pieces: Seq<Seq<char>>, x: Seq<char>) -> nat
    decreases pieces.len(),
{
    if pieces.len() == 0 {
        0
    } else {
        count_of(pieces.drop_last(), x) + if pieces.last() == x {
            1nat
        } else {
            0nat
        }
    }
}

proof fn lemma_count_of_concat(a: Seq<Seq<char>>, b: Seq<Seq<char>>, x: Seq<char>)
    ensures
        count_of(a + b, x) == count_of(a, x) + count_of(b, x),
    decreases b.len(),
{
    if b.len() == 0 {
        assert(a + b =~= a);
    } else {
        lemma_count_of_concat(a, b.drop_last(), x);
        assert((a + b).drop_last() =~= a + b.drop_last());
        assert((a + b).last() == b.last());
    }
}

proof fn lemma_separators_before(parts: Seq<Seq<char>>, sep: Seq<char>, i: int)
    requires
        0 <= i < parts.len(),
    ensures
        count_of(separator_pieces(parts, sep).take(i).flatten(), sep) >= i,
    decreases i,
{
    let outs = separator_pieces(parts, sep);
    if i == 0 {
        assert(outs.take(0) =~= Seq::<Seq<Seq<char>>>::empty());
    } else {
        lemma_separators_before(parts, sep, i - 1);
        assert(outs.take(i) =~= outs.take(i - 1).push(outs[i - 1]));
        outs.take(i - 1).lemma_flatten_push(outs[i - 1]);
        lemma_count_of_concat(outs.take(i - 1).flatten(), outs[i - 1], sep);
        let o = outs[i - 1];
        assert(o.last() == sep);
        assert(count_of(o, sep) >= 1);
    }
}

/// Splitting keeps every separator: a non-empty text that `sep` occurs in
/// `k` times gives at least `k` pieces that are `sep`.
pub proof fn lemma_split_with_separator_keeps_separators(text: Seq<char>, sep: Seq<char>)
    requires
        text.len() > 0,
    ensures
        count_of(split_with_separator_spec(text, sep), sep) >= split_by(text, sep).len() - 1,
{
    let parts = split_by(text, sep);
    let outs = separator_pieces(parts, sep);
    if sep.len() > 0 {
        lemma_find_from(text, sep, 0);
    }
    assert(parts.len() >= 1);
    let n = parts.len() - 1;
    lemma_separators_before(parts, sep, n);
    assert(outs.take(n + 1) =~= outs.take(n).push(outs[n]));
    outs.take(n).lemma_flatten_push(outs[n]);
    lemma_count_of_concat(outs.take(n).flatten(), outs[n], sep);
    assert(outs.take(n + 1) =~= outs);
}

} // verus!
