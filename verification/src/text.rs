//! Text primitives: substring containment and line splitting, each with an
//! exact mathematical description.

use vstd::prelude::*;

verus! {

/// The query `q` stands in `l` beginning at position `i`.
pub open spec fn spec_contains_at(l: Seq<char>, q: Seq<char>, i: int) -> bool {
    0 <= i && i + q.len() <= l.len() && l.subrange(i, i + q.len() as int) == q
}

/// The query `q` stands somewhere in `l` as a contiguous substring.
pub open spec fn spec_contains(l: Seq<char>, q: Seq<char>) -> bool {
    exists|i: int| spec_contains_at(l, q, i)
}

/// An empty query stands in every text.
pub proof fn lemma_contains_empty(l: Seq<char>, q: Seq<char>)
    requires
        q.len() == 0,
    ensures
        spec_contains(l, q),
{
    assert(l.subrange(0, 0) =~= q);
    assert(spec_contains_at(l, q, 0));
}

/// Compares `query` against the characters of `line` beginning at `i`.
fn match_at(line: &str, query: &str, i: usize) -> (r: bool)
    requires
        i + query@.len() <= line@.len(),
        line@.len() <= usize::MAX,
    ensures
        r == spec_contains_at(line@, query@, i as int),
{
    let m = query.unicode_len();
    let mut j: usize = 0;
    while j < m
        invariant
            j <= m,
            m == query@.len(),
            i + m <= line@.len() <= usize::MAX,
            forall|k: int| 0 <= k < j ==> line@[i + k] == query@[k],
        decreases m - j,
    {
        if line.get_char(i + j) != query.get_char(j) {
            assert(!spec_contains_at(line@, query@, i as int)) by {
                assert(line@.subrange(i as int, i + m)[j as int] == line@[i + j]);
            }
            return false;
        }
        j += 1;
    }
    assert(line@.subrange(i as int, i + m) =~= query@);
    true
}

/// Whether `query` stands in `line`, by a scan over every start position.
pub fn contains_substr(line: &str, query: &str) -> (r: bool)
    ensures
        r == spec_contains(line@, query@),
{
    let n = line.unicode_len();
    let m = query.unicode_len();
    if m == 0 {
        proof {
            lemma_contains_empty(line@, query@);
        }
        return true;
    }
    if m > n {
        assert(!spec_contains(line@, query@));
        return false;
    }
    let mut i: usize = 0;
    while i <= n - m
        invariant
            1 <= m <= n,
            n == line@.len(),
            m == query@.len(),
            i <= n - m + 1,
            forall|k: int| 0 <= k < i ==> !spec_contains_at(line@, query@, k),
        decreases n - m - i + 1,
    {
        if match_at(line, query, i) {
            assert(spec_contains(line@, query@));
            return true;
        }
        i += 1;
    }
    assert(!spec_contains(line@, query@));
    false
}

/// The position of the first newline in `c`, or `c.len()` when there is none.
pub open spec fn first_newline(c: Seq<char>) -> int
    decreases c.len(),
{
    if c.len() == 0 {
        0
    } else if c[0] == '\n' {
        0
    } else {
        1 + first_newline(c.subrange(1, c.len() as int))
    }
}

/// A line drops one carriage return standing at its end.
pub open spec fn strip_cr(l: Seq<char>) -> Seq<char> {
    if l.len() > 0 && l.last() == '\r' {
        l.drop_last()
    } else {
        l
    }
}

/// The lines of `c`: the text is split at each newline, a carriage return
/// standing just before a newline is dropped, and a trailing terminator does
/// not produce a spurious empty final line.
pub open spec fn spec_lines(c: Seq<char>) -> Seq<Seq<char>>
    decreases c.len(),
{
    if c.len() == 0 {
        Seq::empty()
    } else {
        let i = first_newline(c);
        if 0 <= i < c.len() {
            seq![strip_cr(c.subrange(0, i))] + spec_lines(c.subrange(i + 1, c.len() as int))
        } else {
            seq![c]
        }
    }
}

/// Any position in `c` with no newline before it, and a newline at it or the
/// length of `c`, is `first_newline(c)`.
pub proof fn lemma_first_newline_unique(c: Seq<char>, i: int)
    requires
        0 <= i <= c.len(),
        forall|k: int| 0 <= k < i ==> c[k] != '\n',
        i < c.len() ==> c[i] == '\n',
    ensures
        first_newline(c) == i,
    decreases c.len(),
{
    if c.len() == 0 {
    } else if c[0] == '\n' {
        assert(i == 0);
    } else {
        let sub = c.subrange(1, c.len() as int);
        assert(i >= 1);
        assert forall|k: int| 0 <= k < i - 1 implies sub[k] != '\n' by {
            assert(sub[k] == c[k + 1]);
        }
        if i - 1 < sub.len() {
            assert(sub[i - 1] == c[i]);
        }
        lemma_first_newline_unique(sub, i - 1);
    }
}

/// The views of a sequence of string slices.
pub open spec fn views_of(r: Seq<&str>) -> Seq<Seq<char>> {
    r.map_values(|l: &str| l@)
}

/// Scans `s` from `from` for the first newline; yields its position, or the
/// length of `s` when none stands at or after `from`.
fn find_newline(s: &str, from: usize, n: usize) -> (r: usize)
    requires
        n == s@.len(),
        from <= n,
    ensures
        from <= r <= n,
        forall|k: int| from <= k < r ==> s@[k] != '\n',
        r < n ==> s@[r as int] == '\n',
{
    let mut j: usize = from;
    while j < n
        invariant
            from <= j <= n,
            n == s@.len(),
            forall|k: int| from <= k < j ==> s@[k] != '\n',
        decreases n - j,
    {
        if s.get_char(j) == '\n' {
            return j;
        }
        j += 1;
    }
    n
}

/// Splits `contents` into its lines, each a slice of the original text, in
/// their original order; the views of the results are exactly `spec_lines`.
pub fn split_lines<'a>(contents: &'a str) -> (r: Vec<&'a str>)
    ensures
        views_of(r@) == spec_lines(contents@),
{
    let n = contents.unicode_len();
    let mut result: Vec<&'a str> = Vec::new();
    let mut start: usize = 0;
    proof {
        assert(contents@.subrange(0, n as int) =~= contents@);
        assert(views_of(result@) =~= Seq::<Seq<char>>::empty());
        assert(views_of(result@) + spec_lines(contents@) =~= spec_lines(contents@));
    }
    while start < n
        invariant
            start <= n,
            n == contents@.len(),
            spec_lines(contents@) == views_of(result@) + spec_lines(
                contents@.subrange(start as int, n as int),
            ),
        decreases n - start,
    {
        let ghost sub = contents@.subrange(start as int, n as int);
        let ghost old_views = views_of(result@);
        let j = find_newline(contents, start, n);
        proof {
            assert forall|k: int| 0 <= k < j - start implies sub[k] != '\n' by {
                assert(sub[k] == contents@[start + k]);
            }
            if j < n {
                assert(sub[j - start] == contents@[j as int]);
            }
            lemma_first_newline_unique(sub, j - start);
        }
        if j < n {
            let line: &'a str = if j > start && contents.get_char(j - 1) == '\r' {
                contents.substring_char(start, j - 1)
            } else {
                contents.substring_char(start, j)
            };
            proof {
                let piece = sub.subrange(0, j - start);
                assert(piece =~= contents@.subrange(start as int, j as int));
                if j > start && contents@[j - 1] == '\r' {
                    assert(piece.last() == contents@[j - 1]);
                    assert(piece.drop_last() =~= contents@.subrange(start as int, j - 1));
                    assert(line@ == strip_cr(piece));
                } else {
                    if piece.len() > 0 {
                        assert(piece.last() == contents@[j - 1]);
                    }
                    assert(line@ == strip_cr(piece));
                }
                assert(sub.subrange(j - start + 1, sub.len() as int) =~= contents@.subrange(
                    j + 1,
                    n as int,
                ));
                assert(spec_lines(sub) == seq![strip_cr(piece)] + spec_lines(
                    contents@.subrange(j + 1, n as int),
                ));
            }
            result.push(line);
            proof {
                assert(views_of(result@) =~= old_views + seq![line@]);
                assert((old_views + seq![line@]) + spec_lines(contents@.subrange(j + 1, n as int))
                    =~= old_views + (seq![line@] + spec_lines(contents@.subrange(j + 1, n as int))));
            }
            start = j + 1;
        } else {
            let line: &'a str = contents.substring_char(start, n);
            proof {
                assert(line@ == sub);
                assert(spec_lines(sub) == seq![sub]);
            }
            result.push(line);
            proof {
                assert(views_of(result@) =~= old_views + seq![line@]);
                assert(contents@.subrange(n as int, n as int) =~= Seq::<char>::empty());
                assert(spec_lines(contents@.subrange(n as int, n as int))
                    =~= Seq::<Seq<char>>::empty());
                assert((old_views + seq![line@]) + spec_lines(contents@.subrange(n as int, n as int))
                    =~= old_views + seq![line@]);
            }
            start = n;
        }
    }
    proof {
        assert(contents@.subrange(start as int, n as int) =~= Seq::<char>::empty());
        assert(spec_lines(contents@.subrange(start as int, n as int))
            =~= Seq::<Seq<char>>::empty());
        assert(views_of(result@) + spec_lines(contents@.subrange(start as int, n as int))
            =~= views_of(result@));
    }
    result
}

} // verus!
