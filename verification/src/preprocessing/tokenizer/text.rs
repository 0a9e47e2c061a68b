//! Character-level text operations: Unicode whitespace, trimming and
//! splitting on a separator, over the `Seq<char>` view of strings.

use vstd::prelude::*;

verus! {

/// The Unicode `White_Space` property: the characters that `str::trim`
/// removes and that the regex class `\s` matches.
pub open spec fn is_white_space(c: char) -> bool {
    ||| ('\u{9}' <= c && c <= '\u{d}')
    ||| c == ' '
    ||| c == '\u{85}'
    ||| c == '\u{a0}'
    ||| c == '\u{1680}'
    ||| ('\u{2000}' <= c && c <= '\u{200a}')
    ||| c == '\u{2028}'
    ||| c == '\u{2029}'
    ||| c == '\u{202f}'
    ||| c == '\u{205f}'
    ||| c == '\u{3000}'
}

/// Whether `c` is a Unicode whitespace character.
pub fn char_is_white_space(c: char) -> (r: bool)
    ensures
        r == is_white_space(c),
{
    ('\u{9}' <= c && c <= '\u{d}') || c == ' ' || c == '\u{85}' || c == '\u{a0}' || c == '\u{1680}'
        || ('\u{2000}' <= c && c <= '\u{200a}') || c == '\u{2028}' || c == '\u{2029}' || c
        == '\u{202f}' || c == '\u{205f}' || c == '\u{3000}'
}

/// The characters of a string, in order.
pub fn chars_of(s: &str) -> (v: Vec<char>)
    ensures
        v@ == s@,
{
    let mut v: Vec<char> = Vec::new();
    for c in it: s.chars()
        invariant
            it.seq() == s@,
            v@ == it.seq().take(it.index() as int),
    {
        v.push(c);
    }
    v
}

/// `s` without its leading whitespace.
pub open spec fn trim_start(s: Seq<char>) -> Seq<char>
    decreases s.len(),
{
    if s.len() > 0 && is_white_space(s[0]) {
        trim_start(s.drop_first())
    } else {
        s
    }
}

/// `s` without its trailing whitespace.
pub open spec fn trim_end(s: Seq<char>) -> Seq<char>
    decreases s.len(),
{
    if s.len() > 0 && is_white_space(s.last()) {
        trim_end(s.drop_last())
    } else {
        s
    }
}

/// `s` without leading and trailing whitespace, as `str::trim` gives it.
pub open spec fn trim(s: Seq<char>) -> Seq<char> {
    trim_end(trim_start(s))
}

/// The bounds of `s[from..to]` once trimmed: `s[a..b]` is the trimmed text.
pub fn trim_bounds(s: &Vec<char>, from: usize, to: usize) -> (r: (usize, usize))
    requires
        from <= to <= s.len(),
    ensures
        from <= r.0 <= r.1 <= to,
        s@.subrange(r.0 as int, r.1 as int) == trim(s@.subrange(from as int, to as int)),
{
    let mut a = from;
    while a < to && char_is_white_space(s[a])
        invariant
            from <= a <= to <= s.len(),
            trim_start(s@.subrange(from as int, to as int)) == trim_start(
                s@.subrange(a as int, to as int),
            ),
        decreases to - a,
    {
        assert(s@.subrange(a as int, to as int).drop_first() =~= s@.subrange(a + 1, to as int));
        a = a + 1;
    }
    let mut b = to;
    while b > a && char_is_white_space(s[b - 1])
        invariant
            from <= a <= b <= to <= s.len(),
            trim_start(s@.subrange(from as int, to as int)) == s@.subrange(a as int, to as int),
            trim(s@.subrange(from as int, to as int)) == trim_end(s@.subrange(a as int, b as int)),
        decreases b - a,
    {
        assert(s@.subrange(a as int, b as int).drop_last() =~= s@.subrange(a as int, b - 1));
        b = b - 1;
    }
    (a, b)
}

/// Whether `sep` occurs in `s` at position `at`.
pub open spec fn occurs_at(s: Seq<char>, sep: Seq<char>, at: int) -> bool {
    0 <= at && at + sep.len() <= s.len() && s.subrange(at, at + sep.len()) =~= sep
}

/// The first position at or after `from` where the non-empty `sep` occurs in `s`.
pub open spec fn find_from(s: Seq<char>, sep: Seq<char>, from: int) -> Option<int>
    decreases s.len() - from,
{
    if from < 0 || sep.len() == 0 || from + sep.len() > s.len() {
        None
    } else if occurs_at(s, sep, from) {
        Some(from)
    } else {
        find_from(s, sep, from + 1)
    }
}

pub proof fn lemma_find_from(s: Seq<char>, sep: Seq<char>, from: int)
    ensures
        find_from(s, sep, from) matches Some(k) ==> {
            &&& 0 <= from <= k
            &&& k + sep.len() <= s.len()
            &&& sep.len() > 0
            &&& occurs_at(s, sep, k)
            &&& forall|j: int| from <= j < k ==> !occurs_at(s, sep, j)
        },
        find_from(s, sep, from) is None && 0 <= from && sep.len() > 0 ==> forall|j: int|
            from <= j ==> !occurs_at(s, sep, j),
    decreases s.len() - from,
{
    if from < 0 || sep.len() == 0 || from + sep.len() > s.len() {
    } else if occurs_at(s, sep, from) {
    } else {
        lemma_find_from(s, sep, from + 1);
    }
}

/// The pieces of `s[start..]` between the successive leftmost occurrences
/// of the non-empty separator `sep`.
pub open spec fn split_from(s: Seq<char>, sep: Seq<char>, start: int) -> Seq<Seq<char>>
    decreases s.len() - start,
{
    if start < 0 || start > s.len() {
        seq![]
    } else {
        match find_from(s, sep, start) {
            Some(k) => {
                proof {
                    lemma_find_from(s, sep, start);
                }
                seq![s.subrange(start, k)] + split_from(s, sep, k + sep.len())
            },
            None => seq![s.subrange(start, s.len() as int)],
        }
    }
}

/// The pieces of `s` between the occurrences of `sep`, as `str::split`
/// gives them. An empty separator splits around every character and at
/// both ends.
pub open spec fn split_by(s: Seq<char>, sep: Seq<char>) -> Seq<Seq<char>> {
    if sep.len() == 0 {
        seq![Seq::<char>::empty()] + Seq::new(s.len(), |i: int| seq![s[i]]) + seq![
            Seq::<char>::empty(),
        ]
    } else {
        split_from(s, sep, 0)
    }
}

pub proof fn lemma_split_from_len(s: Seq<char>, sep: Seq<char>, start: int)
    requires
        0 <= start <= s.len(),
    ensures
        split_from(s, sep, start).len() <= s.len() - start + 1,
    decreases s.len() - start,
{
    lemma_find_from(s, sep, start);
    if let Some(k) = find_from(s, sep, start) {
        lemma_split_from_len(s, sep, k + sep.len());
    }
}

/// A text of `n` characters splits into at most `n + 1` pieces.
pub proof fn lemma_split_len(s: Seq<char>, sep: Seq<char>)
    ensures
        split_by(s, sep).len() <= s.len() + 2,
        sep.len() > 0 ==> split_by(s, sep).len() <= s.len() + 1,
{
    if sep.len() > 0 {
        lemma_split_from_len(s, sep, 0);
    }
}

/// `pieces` put end to end with `sep` between each two of them.
pub open spec fn join_with(pieces: Seq<Seq<char>>, sep: Seq<char>) -> Seq<char>
    decreases pieces.len(),
{
    if pieces.len() <= 1 {
        if pieces.len() == 1 {
            pieces[0]
        } else {
            seq![]
        }
    } else {
        pieces[0] + sep + join_with(pieces.drop_first(), sep)
    }
}

proof fn lemma_join_split_from(s: Seq<char>, sep: Seq<char>, start: int)
    requires
        0 <= start <= s.len(),
        sep.len() > 0,
    ensures
        join_with(split_from(s, sep, start), sep) == s.subrange(start, s.len() as int),
    decreases s.len() - start,
{
    lemma_find_from(s, sep, start);
    let pieces = split_from(s, sep, start);
    if let Some(k) = find_from(s, sep, start) {
        let next = k + sep.len();
        lemma_join_split_from(s, sep, next);
        lemma_split_from_len(s, sep, next);
        let rest = split_from(s, sep, next);
        assert(pieces.drop_first() =~= rest);
        assert(rest.len() >= 1) by {
            lemma_find_from(s, sep, next);
        }
        assert(s.subrange(start, s.len() as int) =~= s.subrange(start, k) + sep + s.subrange(
            next,
            s.len() as int,
        ));
    }
}

/// Splitting undoes joining: the pieces of `s` between the occurrences of
/// a non-empty separator, joined again with it, give back `s`.
pub proof fn lemma_split_then_join(s: Seq<char>, sep: Seq<char>)
    requires
        sep.len() > 0,
    ensures
        join_with(split_by(s, sep), sep) == s,
{
    lemma_join_split_from(s, sep, 0);
    assert(s.subrange(0, s.len() as int) =~= s);
}

/// Whether `sep` occurs in `s` at position `at`.
fn occurs_at_exec(s: &Vec<char>, sep: &Vec<char>, at: usize) -> (r: bool)
    ensures
        r == occurs_at(s@, sep@, at as int),
{
    if sep.len() > s.len() || at > s.len() - sep.len() {
        return false;
    }
    let mut i: usize = 0;
    while i < sep.len()
        invariant
            i <= sep.len(),
            at + sep.len() <= s.len(),
            forall|j: int| 0 <= j < i ==> s@[at + j] == sep@[j],
        decreases sep.len() - i,
    {
        if s[at + i] != sep[i] {
            assert(s@.subrange(at as int, at + sep.len())[i as int] != sep@[i as int]);
            return false;
        }
        i = i + 1;
    }
    assert(s@.subrange(at as int, at + sep.len()) =~= sep@);
    true
}

/// The pieces of `s` that the character ranges `r` delimit.
pub open spec fn pieces_of(s: Seq<char>, r: Seq<(usize, usize)>) -> Seq<Seq<char>> {
    r.map_values(|p: (usize, usize)| s.subrange(p.0 as int, p.1 as int))
}

/// Whether every range of `r` lies within a text of `len` characters.
pub open spec fn ranges_within(r: Seq<(usize, usize)>, len: nat) -> bool {
    forall|i: int| 0 <= i < r.len() ==> #[trigger] r[i].0 <= r[i].1 <= len
}

/// The character ranges of the pieces of `s` between the occurrences of
/// `sep`, as `str::split` cuts them.
pub fn split_ranges(s: &Vec<char>, sep: &Vec<char>) -> (r: Vec<(usize, usize)>)
    ensures
        ranges_within(r@, s@.len()),
        pieces_of(s@, r@) == split_by(s@, sep@),
{
    let mut r: Vec<(usize, usize)> = Vec::new();
    if sep.len() == 0 {
        r.push((0, 0));
        let mut i: usize = 0;
        while i < s.len()
            invariant
                i <= s.len(),
                r@.len() == i + 1,
                r@[0] == (0usize, 0usize),
                forall|j: int| 1 <= j <= i ==> #[trigger] r@[j] == ((j - 1) as usize, j as usize),
            decreases s.len() - i,
        {
            r.push((i, i + 1));
            i = i + 1;
        }
        r.push((s.len(), s.len()));
        proof {
            let pieces = split_by(s@, sep@);
            assert forall|i: int| 0 <= i < r@.len() implies s@.subrange(
                r@[i].0 as int,
                r@[i].1 as int,
            ) == pieces[i] by {
                if i == 0 {
                    assert(s@.subrange(0, 0) =~= pieces[0]);
                } else if i <= s@.len() {
                    assert(s@.subrange(i - 1, i) =~= pieces[i]);
                } else {
                    assert(s@.subrange(s@.len() as int, s@.len() as int) =~= pieces[i]);
                }
            }
            assert(pieces_of(s@, r@) =~= pieces);
        }
        return r;
    }
    let mut start: usize = 0;
    let mut at: usize = 0;
    while at < s.len() && sep.len() <= s.len() - at
        invariant
            sep@.len() > 0,
            start <= at <= s.len(),
            find_from(s@, sep@, start as int) == find_from(s@, sep@, at as int),
            ranges_within(r@, s@.len()),
            split_from(s@, sep@, 0) == pieces_of(s@, r@) + split_from(s@, sep@, start as int),
        decreases s.len() - at,
    {
        if occurs_at_exec(s, sep, at) {
            let ghost old_r = r@;
            assert(find_from(s@, sep@, at as int) == Some(at as int));
            r.push((start, at));
            assert(pieces_of(s@, r@) =~= pieces_of(s@, old_r).push(
                s@.subrange(start as int, at as int),
            ));
            assert(split_from(s@, sep@, 0) =~= pieces_of(s@, r@) + split_from(
                s@,
                sep@,
                at + sep.len(),
            ));
            start = at + sep.len();
            at = start;
        } else {
            at = at + 1;
        }
    }
    proof {
        lemma_find_from(s@, sep@, at as int);
    }
    assert(find_from(s@, sep@, at as int) is None);
    let ghost old_r = r@;
    r.push((start, s.len()));
    assert(pieces_of(s@, r@) =~= pieces_of(s@, old_r).push(
        s@.subrange(start as int, s@.len() as int),
    ));
    r
}

} // verus!
