//! The merge ranks of a byte-pair encoding.

use std::collections::HashMap;
use vstd::prelude::*;
use crate::preprocessing::vocab::base_vocab::{lemma_empty_map_deep_view, map_lookup};
use crate::preprocessing::tokenizer::text::{
    chars_of, lemma_split_len, pieces_of, split_by, split_ranges, trim, trim_bounds,
};

verus! {

/// The merges of a byte-pair encoding: each pair of symbols that may be
/// merged, with its rank. Pairs of lower rank merge first.
pub struct BpePairVocab {
    pub values: HashMap<(String, String), i64>,
}

/// `HashMap::get` on a map keyed by pairs of strings, with the value
/// copied out.
///
/// Pairs of strings hash and compare by their characters, so the value
/// returned is the one stored under the pair whose characters are those of
/// `key`, and `None` when there is no such pair.
#[verifier::external_body]
fn pair_map_get(map: &HashMap<(String, String), i64>, key: &(String, String)) -> (r: Option<i64>)
    ensures
        r == map_lookup(map.deep_view(), key.deep_view()),
{
    map.get(key).copied()
}

/// `HashMap::insert` of `value` under `key` into a map keyed by pairs of
/// strings, the value replaced where the pair already had one.
#[verifier::external_body]
fn pair_map_insert(map: &mut HashMap<(String, String), i64>, key: (String, String), value: i64)
    ensures
        final(map).deep_view() == old(map).deep_view().insert(key.deep_view(), value),
{
    map.insert(key, value);
}

/// The lines of `text`: the pieces between its line breaks `\n`, without
/// the empty piece after a final line break.
pub open spec fn text_lines(text: Seq<char>) -> Seq<Seq<char>> {
    let raw = split_by(text, seq!['\n']);
    if raw.last().len() == 0 {
        raw.drop_last()
    } else {
        raw
    }
}

/// The merge that a line of a merges file describes: its first two fields,
/// once trimmed and cut at single spaces, if it has two.
pub open spec fn line_merge(line: Seq<char>) -> Option<(Seq<char>, Seq<char>)> {
    let fields = split_by(trim(line), seq![' ']);
    if fields.len() > 1 {
        Some((fields[0], fields[1]))
    } else {
        None
    }
}

/// The merges that `lines` describe, in order.
pub open spec fn merges_of_lines(lines: Seq<Seq<char>>) -> Seq<(Seq<char>, Seq<char>)>
    decreases lines.len(),
{
    if lines.len() == 0 {
        seq![]
    } else {
        let rest = merges_of_lines(lines.drop_last());
        match line_merge(lines.last()) {
            Some(p) => rest.push(p),
            None => rest,
        }
    }
}

/// The rank of each merge of `merges`: its position; a merge given twice
/// keeps its last position.
pub open spec fn ranks_of(merges: Seq<(Seq<char>, Seq<char>)>) -> Map<(Seq<char>, Seq<char>), i64>
    decreases merges.len(),
{
    if merges.len() == 0 {
        Map::empty()
    } else {
        ranks_of(merges.drop_last()).insert(merges.last(), (merges.len() - 1) as i64)
    }
}

/// The merges of a merges file: every line after the first (a header)
/// that holds two fields.
pub open spec fn merges_of_text(text: Seq<char>) -> Seq<(Seq<char>, Seq<char>)> {
    let lines = text_lines(text);
    if lines.len() == 0 {
        seq![]
    } else {
        merges_of_lines(lines.skip(1))
    }
}

impl BpePairVocab {
    /// The ranks, by the characters of the two symbols of each pair.
    pub open spec fn ranks(&self) -> Map<(Seq<char>, Seq<char>), i64> {
        self.values.deep_view()
    }

    /// The rank of `pair`, if it is a merge of this encoding.
    pub fn byte_pair_to_id(&self, pair: &(String, String)) -> (r: Option<i64>)
        ensures
            r == map_lookup(self.ranks(), pair.deep_view()),
    {
        pair_map_get(&self.values, pair)
    }

    /// The merges that the text of a merges file lists, ranked in the order
    /// of their lines.
    pub fn from_merges_text(text: &str) -> (r: BpePairVocab)
        requires
            text@.len() < 0x7fff_ffff_ffff_ffff,
        ensures
            r.ranks() == ranks_of(merges_of_text(text@)),
    {
        let chars = chars_of(text);
        let newline: Vec<char> = vec!['\n'];
        let space: Vec<char> = vec![' '];
        assert(newline@ =~= seq!['\n']);
        assert(space@ =~= seq![' ']);
        let ranges = split_ranges(&chars, &newline);
        let ghost raw = split_by(text@, seq!['\n']);
        assert(pieces_of(chars@, ranges@).len() == ranges@.len());
        let last = ranges.len() - 1;
        let line_count = if ranges[last].0 == ranges[last].1 {
            last
        } else {
            ranges.len()
        };
        let ghost lines = text_lines(text@);
        assert(raw.last() == chars@.subrange(ranges@[last as int].0 as int, ranges@[last as int].1 as int));
        assert(lines.len() == line_count);
        proof {
            lemma_split_len(text@, seq!['\n']);
        }
        let mut values: HashMap<(String, String), i64> = HashMap::new();
        proof {
            lemma_empty_map_deep_view(values);
        }
        if line_count == 0 {
            assert(merges_of_text(text@) =~= Seq::<(Seq<char>, Seq<char>)>::empty());
            return BpePairVocab { values };
        }
        let mut index: i64 = 0;
        let mut i: usize = 1;
        assert(lines.skip(1).take(0) =~= Seq::<Seq<char>>::empty());
        while i < line_count
            invariant
                1 <= i,
                line_count <= ranges@.len(),
                i <= line_count,
                chars@ == text@,
                space@ == seq![' '],
                lines == text_lines(text@),
                lines.len() == line_count,
                forall|j: int| 0 <= j < line_count ==> #[trigger] lines[j] == chars@.subrange(ranges@[j].0 as int, ranges@[j].1 as int),
                forall|j: int| 0 <= j < ranges@.len() ==> #[trigger] ranges@[j].0 <= ranges@[j].1 <= chars@.len(),
                index == merges_of_lines(lines.skip(1).take(i - 1)).len(),
                index < i,
                line_count <= chars@.len() + 1,
                chars@.len() < 0x7fff_ffff_ffff_ffff,
                values.deep_view() == ranks_of(merges_of_lines(lines.skip(1).take(i - 1))),
            decreases line_count - i,
        {
            let ghost before = lines.skip(1).take(i - 1);
            assert(lines.skip(1).take(i as int) =~= before.push(lines[i as int]));
            assert(before.push(lines[i as int]).drop_last() =~= before);
            let (a, b) = trim_bounds(&chars, ranges[i].0, ranges[i].1);
            let mut line: Vec<char> = Vec::new();
            let mut k = a;
            while k < b
                invariant
                    a <= k <= b <= chars@.len(),
                    line@ =~= chars@.subrange(a as int, k as int),
                decreases b - k,
            {
                line.push(chars[k]);
                k = k + 1;
            }
            assert(line@ == trim(lines[i as int]));
            let fields = split_ranges(&line, &space);
            assert(pieces_of(line@, fields@).len() == fields@.len());
            if fields.len() > 1 {
                let first = String::from_str(text.substring_char(a + fields[0].0, a + fields[0].1));
                let second = String::from_str(text.substring_char(a + fields[1].0, a + fields[1].1));
                assert(first@ =~= pieces_of(line@, fields@)[0]);
                assert(second@ =~= pieces_of(line@, fields@)[1]);
                let ghost merges = merges_of_lines(before);
                let ghost p = (first@, second@);
                assert(line_merge(lines[i as int]) == Some(p));
                assert(merges_of_lines(before.push(lines[i as int])) == merges.push(p));
                assert(merges.push(p).drop_last() =~= merges);
                pair_map_insert(&mut values, (first, second), index);
                index = index + 1;
            } else {
                assert(line_merge(lines[i as int]) is None);
            }
            i = i + 1;
        }
        assert(lines.skip(1).take(i - 1) =~= lines.skip(1));
        BpePairVocab { values }
    }
}

} // verus!
