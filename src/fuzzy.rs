use vstd::prelude::*;

use crate::text::chars_of;

verus! {

/// `pattern` occurs in `text` as a subsequence: its characters appear in
/// `text` in the same order, not necessarily next to each other.
pub open spec fn is_subsequence(pattern: Seq<char>, text: Seq<char>) -> bool
    decreases text.len(),
{
    if pattern.len() == 0 {
        true
    } else if text.len() == 0 {
        false
    } else if text[0] == pattern[0] {
        is_subsequence(pattern.drop_first(), text.drop_first())
    } else {
        is_subsequence(pattern, text.drop_first())
    }
}

/// Case-sensitive ordered subsequence test: every character of `pattern`
/// is matched, in order, by a distinct character of `text`.
pub fn is_fuzzy_match(text: &str, pattern: &str) -> (r: bool)
    ensures
        r == is_subsequence(pattern@, text@),
{
    let p = chars_of(pattern);
    let mut j: usize = 0;
    proof {
        assert(p@.skip(0) == p@);
        assert(text@.skip(0) == text@);
    }
    for ch in it: text.chars()
        invariant
            it.seq() == text@,
            j <= p@.len(),
            p@ == pattern@,
            is_subsequence(pattern@, text@) == is_subsequence(
                p@.skip(j as int),
                text@.skip(it.index() as int),
            ),
    {
        let ghost k = it.index() as int;
        proof {
            assert(text@.skip(k).drop_first() == text@.skip(k + 1));
            assert(text@.skip(k)[0] == ch);
            if j < p.len() {
                assert(p@.skip(j as int).drop_first() == p@.skip(j + 1));
                assert(p@.skip(j as int)[0] == p@[j as int]);
            }
        }
        if j < p.len() && ch == p[j] {
            j = j + 1;
        }
    }
    proof {
        assert(text@.skip(text@.len() as int).len() == 0);
    }
    j == p.len()
}

/// Dropping the last character of a pattern keeps it a subsequence.
pub proof fn lemma_fuzzy_match_drop_last(text: Seq<char>, pattern: Seq<char>)
    requires
        pattern.len() > 0,
        is_subsequence(pattern, text),
    ensures
        is_subsequence(pattern.drop_last(), text),
    decreases text.len(),
{
    if text.len() > 0 {
        if text[0] == pattern[0] {
            if pattern.len() > 1 {
                lemma_fuzzy_match_drop_last(text.drop_first(), pattern.drop_first());
                assert(pattern.drop_first().drop_last() == pattern.drop_last().drop_first());
            }
        } else {
            lemma_fuzzy_match_drop_last(text.drop_first(), pattern);
        }
    }
}

/// The empty pattern matches every text.
pub proof fn lemma_fuzzy_match_empty_pattern(text: Seq<char>)
    ensures
        is_subsequence(Seq::empty(), text),
{
}

} // verus!
