//! Splitting text at separator characters, specified the way
//! `str::split` behaves: `n` separators give `n + 1` pieces, empty pieces
//! included.

use vstd::prelude::*;
use crate::lex::{char_is_ws, is_ws};

verus! {

/// What separates pieces of text.
#[derive(Debug, Clone, Copy, PartialEq, Eq, Structural)]
pub enum Separator {
    /// One given character.
    Char(char),
    /// A comma or any Unicode whitespace character.
    CommaOrWhitespace,
}

pub open spec fn is_sep(sep: Separator, c: char) -> bool {
    match sep {
        Separator::Char(x) => c == x,
        Separator::CommaOrWhitespace => c == ',' || is_ws(c),
    }
}

pub fn sep_matches(sep: Separator, c: char) -> (r: bool)
    ensures
        r == is_sep(sep, c),
{
    match sep {
        Separator::Char(x) => c == x,
        Separator::CommaOrWhitespace => c == ',' || char_is_ws(c),
    }
}

/// The pieces of `s` between occurrences of `sep`.
pub open spec fn split_char(s: Seq<char>, sep: Separator) -> Seq<Seq<char>>
    decreases s.len(),
{
    if s.len() == 0 {
        seq![Seq::<char>::empty()]
    } else {
        let rest = split_char(s.drop_last(), sep);
        if is_sep(sep, s.last()) {
            rest.push(Seq::<char>::empty())
        } else {
            rest.update(rest.len() - 1, rest.last().push(s.last()))
        }
    }
}

pub proof fn lemma_split_char_nonempty(s: Seq<char>, sep: Separator)
    ensures
        split_char(s, sep).len() >= 1,
    decreases s.len(),
{
    if s.len() > 0 {
        lemma_split_char_nonempty(s.drop_last(), sep);
    }
}

/// Stepping the split one character further: a separator opens a new empty
/// piece, any other character extends the last piece.
pub proof fn lemma_split_char_step(s: Seq<char>, i: int, sep: Separator, start: int)
    requires
        0 <= start <= i < s.len(),
        split_char(s.subrange(0, i), sep).last() == s.subrange(start, i),
    ensures
        split_char(s.subrange(0, i + 1), sep).len() >= 1,
        is_sep(sep, s[i]) ==> split_char(s.subrange(0, i + 1), sep) == split_char(s.subrange(0, i), sep).push(
            Seq::<char>::empty(),
        ),
        !is_sep(sep, s[i]) ==> split_char(s.subrange(0, i + 1), sep).drop_last() == split_char(
            s.subrange(0, i),
            sep,
        ).drop_last(),
        !is_sep(sep, s[i]) ==> split_char(s.subrange(0, i + 1), sep).last() == s.subrange(start, i + 1),
{
    lemma_split_char_nonempty(s.subrange(0, i), sep);
    lemma_split_char_nonempty(s.subrange(0, i + 1), sep);
    let t = s.subrange(0, i + 1);
    assert(t.drop_last() =~= s.subrange(0, i));
    assert(t.last() == s[i]);
    if !is_sep(sep, s[i]) {
        let rest = split_char(s.subrange(0, i), sep);
        assert(split_char(t, sep) == rest.update(rest.len() - 1, rest.last().push(s[i])));
        assert(split_char(t, sep).drop_last() =~= rest.drop_last());
        assert(s.subrange(start, i).push(s[i]) =~= s.subrange(start, i + 1));
    }
}

/// Bounds of the pieces of `s[from..to]` split at `sep`, in order.
pub fn split_ranges(s: &[char], from: usize, to: usize, sep: Separator) -> (r: Vec<(usize, usize)>)
    requires
        from <= to <= s.len(),
    ensures
        r@.len() == split_char(s@.subrange(from as int, to as int), sep).len(),
        forall|k: int|
            0 <= k < r@.len() ==> from <= (#[trigger] r@[k]).0 <= r@[k].1 <= to && s@.subrange(
                r@[k].0 as int,
                r@[k].1 as int,
            ) == split_char(s@.subrange(from as int, to as int), sep)[k],
{
    let ghost t = s@.subrange(from as int, to as int);
    let mut r: Vec<(usize, usize)> = Vec::new();
    let mut start: usize = from;
    let mut i: usize = from;
    assert(t.subrange(0, 0) =~= Seq::<char>::empty());
    while i < to
        invariant
            from <= start <= i <= to <= s.len(),
            t == s@.subrange(from as int, to as int),
            r@.len() + 1 == split_char(t.subrange(0, i - from), sep).len(),
            split_char(t.subrange(0, i - from), sep).last() == s@.subrange(start as int, i as int),
            forall|k: int|
                0 <= k < r@.len() ==> from <= (#[trigger] r@[k]).0 <= r@[k].1 <= i && s@.subrange(
                    r@[k].0 as int,
                    r@[k].1 as int,
                ) == split_char(t.subrange(0, i - from), sep)[k],
        decreases to - i,
    {
        proof {
            assert(t.subrange(start - from, i - from) =~= s@.subrange(start as int, i as int));
            lemma_split_char_step(t, i - from, sep, start - from);
            assert(t[i - from] == s@[i as int]);
        }
        let ghost old_split = split_char(t.subrange(0, i - from), sep);
        let ghost new_split = split_char(t.subrange(0, i + 1 - from), sep);
        let ghost old_r = r@;
        if sep_matches(sep, s[i]) {
            r.push((start, i));
            start = i + 1;
            i = i + 1;
            assert(s@.subrange(start as int, i as int) =~= Seq::<char>::empty());
            assert(new_split == old_split.push(Seq::<char>::empty()));
            assert forall|k: int| 0 <= k < r@.len() implies from <= (#[trigger] r@[k]).0 <= r@[k].1
                <= i && s@.subrange(r@[k].0 as int, r@[k].1 as int) == new_split[k] by {
                if k < old_r.len() {
                    assert(r@[k] == old_r[k]);
                    assert(new_split[k] == old_split[k]);
                } else {
                    assert(new_split[k] == old_split.last());
                }
            }
        } else {
            i = i + 1;
            assert(t.subrange(start - from, i - from) =~= s@.subrange(start as int, i as int));
            assert(new_split.drop_last() == old_split.drop_last());
            proof {
                lemma_split_char_nonempty(t.subrange(0, i - 1 - from), sep);
                assert(new_split.drop_last().len() == old_split.drop_last().len());
            }
            assert(new_split.len() == old_split.len());
            assert forall|k: int| 0 <= k < r@.len() implies from <= (#[trigger] r@[k]).0 <= r@[k].1
                <= i && s@.subrange(r@[k].0 as int, r@[k].1 as int) == new_split[k] by {
                assert(new_split[k] == new_split.drop_last()[k]);
                assert(old_split[k] == old_split.drop_last()[k]);
            }
        }
    }
    r.push((start, to));
    proof {
        assert(t.subrange(0, to - from) =~= t);
        lemma_split_char_nonempty(t, sep);
    }
    r
}

} // verus!
