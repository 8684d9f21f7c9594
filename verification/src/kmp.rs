//! Counting occurrences that may overlap, in one pass over the text (Knuth, Morris and Pratt).

use crate::search::{match_positions, matches_at};
use vstd::prelude::*;

verus! {

/// Whether the first `j` characters of `text` end with the first `k` of `pattern`.
spec fn ends_with_prefix(pattern: Seq<char>, text: Seq<char>, j: int, k: int) -> bool {
    &&& 0 <= k <= pattern.len()
    &&& k <= j <= text.len()
    &&& pattern.take(k) == text.subrange(j - k, j)
}

/// Whether `k` is the longest prefix of `pattern`, of those shorter than `bound`, that the first `j`
/// characters of `text` end with.
spec fn longest_below(
    pattern: Seq<char>,
    text: Seq<char>,
    j: int,
    k: int,
    bound: int,
) -> bool {
    &&& ends_with_prefix(pattern, text, j, k)
    &&& k < bound
    &&& forall|l: int| l < bound && ends_with_prefix(pattern, text, j, l) ==> l <= k
}

/// Whether the first `upto` entries of `failure` hold, for each prefix of `pattern`, the length of
/// its longest proper prefix that is also its suffix.
spec fn failure_upto(pattern: Seq<char>, failure: Seq<usize>, upto: int) -> bool {
    &&& upto <= failure.len() == pattern.len()
    &&& forall|i: int|
        0 <= i < upto ==> longest_below(pattern, pattern, i + 1, #[trigger] failure[i] as int, i + 1)
}

/// Where the text ends with a prefix, it ends with a shorter one exactly if that prefix does.
proof fn lemma_shorter_prefix(pattern: Seq<char>, text: Seq<char>, j: int, k: int, l: int)
    requires
        ends_with_prefix(pattern, text, j, k),
        0 <= l <= k,
    ensures
        ends_with_prefix(pattern, text, j, l) == ends_with_prefix(pattern, pattern, k, l),
{
    assert(text.subrange(j - l, j) == text.subrange(j - k, j).subrange(k - l, k));
    assert(pattern.subrange(k - l, k) == pattern.take(k).subrange(k - l, k));
}

/// One more character in text and prefix.
proof fn lemma_extended_prefix(pattern: Seq<char>, text: Seq<char>, j: int, k: int)
    requires
        0 <= k < pattern.len(),
        k <= j < text.len(),
    ensures
        ends_with_prefix(pattern, text, j + 1, k + 1) == (ends_with_prefix(pattern, text, j, k)
            && pattern[k] == text[j]),
{
    let longer = pattern.take(k + 1);
    let ending = text.subrange(j - k, j + 1);
    assert(longer == pattern.take(k).push(pattern[k]));
    assert(ending == text.subrange(j - k, j).push(text[j]));
    assert(longer.drop_last() == pattern.take(k));
    assert(ending.drop_last() == text.subrange(j - k, j));
    assert(longer.last() == pattern[k]);
    assert(ending.last() == text[j]);
}

/// Moves the cursor, the length of the longest prefix that the text read so far ends with, over the
/// next character.
fn advance(
    pattern: &Vec<char>,
    failure: &Vec<usize>,
    cursor: usize,
    next: char,
    Ghost(text): Ghost<Seq<char>>,
    Ghost(j): Ghost<int>,
    Ghost(bound): Ghost<int>,
) -> (r: usize)
    requires
        longest_below(pattern@, text, j, cursor as int, bound),
        bound <= pattern@.len(),
        j < text.len(),
        text[j] == next,
        failure_upto(pattern@, failure@, cursor as int),
    ensures
        longest_below(pattern@, text, j + 1, r as int, bound + 1),
{
    let m = pattern.len();
    let mut k = cursor;
    while k > 0 && pattern[k] != next
        invariant
            0 <= k <= cursor,
            k < bound <= pattern@.len(),
            ends_with_prefix(pattern@, text, j, k as int),
            failure_upto(pattern@, failure@, cursor as int),
            forall|l: int|
                k < l < bound && ends_with_prefix(pattern@, text, j, l) ==> pattern@[l] != next,
        decreases k,
    {
        let shorter = failure[k - 1];
        proof {
            assert(longest_below(pattern@, pattern@, k as int, shorter as int, k as int));
            lemma_shorter_prefix(pattern@, text, j, k as int, shorter as int);
            assert forall|l: int|
                shorter < l < bound && ends_with_prefix(pattern@, text, j, l) implies pattern@[l]
                != next by {
                if l < k {
                    lemma_shorter_prefix(pattern@, text, j, k as int, l);
                }
            }
        }
        k = shorter;
    }
    assert(k < m);
    let r = if pattern[k] == next {
        k + 1
    } else {
        0
    };
    proof {
        lemma_extended_prefix(pattern@, text, j, k as int);
        if r == 0 {
            assert(pattern@.take(0) == text.subrange(j + 1, j + 1));
        }
        let read = j + 1;
        assert forall|l: int|
            l < bound + 1 && ends_with_prefix(pattern@, text, read, l) implies l <= r by {
            if l > 0 {
                lemma_extended_prefix(pattern@, text, j, l - 1);
            }
        }
    }
    r
}

/// For each prefix of the pattern, the length of its longest proper prefix that is also its suffix.
fn build_failure(pattern: &Vec<char>) -> (r: Vec<usize>)
    requires
        0 < pattern@.len(),
    ensures
        failure_upto(pattern@, r@, pattern@.len() as int),
{
    let m = pattern.len();
    let mut failure: Vec<usize> = vec![0; m];
    let mut k: usize = 0;
    assert(pattern@.take(0) == pattern@.subrange(1, 1));
    for i in 1..m
        invariant
            m == pattern@.len(),
            1 <= i <= m,
            longest_below(pattern@, pattern@, i as int, k as int, i as int),
            failure_upto(pattern@, failure@, i as int),
    {
        k = advance(pattern, &failure, k, pattern[i], Ghost(pattern@), Ghost(i as int), Ghost(i as int));
        let ghost before = failure@;
        failure.set(i, k);
        assert forall|l: int| 0 <= l < i + 1 implies longest_below(
            pattern@,
            pattern@,
            l + 1,
            #[trigger] failure@[l] as int,
            l + 1,
        ) by {
            if l < i {
                assert(failure@[l] == before[l]);
            }
        }
    }
    failure
}

/// The places at which `pattern` stands within the first `j` characters of `text`.
spec fn positions_before(text: Seq<char>, pattern: Seq<char>, j: int) -> Set<int> {
    Set::new(|i: int| matches_at(text, pattern, i) && i + pattern.len() <= j)
}

/// How many places of `text` hold `pattern`, overlapping ones each counted.
pub(crate) fn count_overlapping(text: &Vec<char>, pattern: &Vec<char>) -> (r: usize)
    requires
        0 < pattern@.len(),
    ensures
        match_positions(text@, pattern@).finite(),
        r == match_positions(text@, pattern@).len(),
{
    let n = text.len();
    let m = pattern.len();
    let failure = build_failure(pattern);
    let mut count: usize = 0;
    let mut cursor: usize = 0;
    proof {
        assert(pattern@.take(0) == text@.subrange(0, 0));
        assert(positions_before(text@, pattern@, 0) =~= Set::empty());
    }
    for j in 0..n
        invariant
            n == text@.len(),
            m == pattern@.len(),
            0 < m,
            failure_upto(pattern@, failure@, m as int),
            longest_below(pattern@, text@, j as int, cursor as int, m as int),
            positions_before(text@, pattern@, j as int).finite(),
            count == positions_before(text@, pattern@, j as int).len(),
            count <= j,
    {
        cursor = advance(
            pattern,
            &failure,
            cursor,
            text[j],
            Ghost(text@),
            Ghost(j as int),
            Ghost(m as int),
        );
        let ghost before = positions_before(text@, pattern@, j as int);
        let ghost after = positions_before(text@, pattern@, j + 1);
        proof {
            let i = j + 1 - m;
            assert(pattern@.take(m as int) == pattern@);
            if i >= 0 {
                assert(ends_with_prefix(pattern@, text@, j + 1, m as int) == matches_at(
                    text@,
                    pattern@,
                    i,
                ));
            }
            if matches_at(text@, pattern@, i) {
                assert(after =~= before.insert(i));
            } else {
                assert(after =~= before);
            }
        }
        if cursor == m {
            count = count + 1;
            cursor = failure[m - 1];
            proof {
                assert(longest_below(pattern@, pattern@, m as int, cursor as int, m as int));
                lemma_shorter_prefix(pattern@, text@, j + 1, m as int, cursor as int);
                let read = j + 1;
                assert forall|l: int|
                    l < m && ends_with_prefix(pattern@, text@, read, l) implies l <= cursor by {
                    lemma_shorter_prefix(pattern@, text@, j + 1, m as int, l);
                }
            }
        }
    }
    assert(positions_before(text@, pattern@, n as int) =~= match_positions(text@, pattern@));
    count
}

} // verus!
