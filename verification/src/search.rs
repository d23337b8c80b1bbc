//! Line filtering: the two matching variants, the selection between them,
//! and the laws that hold of them.

use vstd::prelude::*;

use crate::config::Config;
use crate::lowercase::{lower_of, lowercase};
use crate::text::{
    contains_substr, lemma_contains_empty, spec_contains, spec_lines, split_lines, views_of,
};

verus! {

/// The lines among `lines` that contain `query`, in their original order.
pub open spec fn spec_filter_matching(lines: Seq<Seq<char>>, query: Seq<char>) -> Seq<Seq<char>> {
    lines.filter(|l: Seq<char>| spec_contains(l, query))
}

/// The lines among `lines` whose lowercase form contains the lowercase form
/// of `query`, in their original order.
pub open spec fn spec_filter_insensitive(lines: Seq<Seq<char>>, query: Seq<char>) -> Seq<
    Seq<char>,
> {
    lines.filter(|l: Seq<char>| spec_contains(lower_of(l), lower_of(query)))
}

/// The lines of `contents` that contain `query`, in their original order.
pub open spec fn spec_search(query: Seq<char>, contents: Seq<char>) -> Seq<Seq<char>> {
    spec_filter_matching(spec_lines(contents), query)
}

/// The lines of `contents` whose lowercase form contains the lowercase form
/// of `query`, in their original order.
pub open spec fn spec_search_insensitive(query: Seq<char>, contents: Seq<char>) -> Seq<Seq<char>> {
    spec_filter_insensitive(spec_lines(contents), query)
}

/// Filtering a one-element sequence keeps the element exactly when the
/// predicate holds of it.
proof fn lemma_filter_singleton<A>(x: A, pred: spec_fn(A) -> bool)
    ensures
        seq![x].filter(pred) == (if pred(x) {
            seq![x]
        } else {
            Seq::<A>::empty()
        }),
{
    reveal_with_fuel(Seq::filter, 2);
    let s = seq![x];
    assert(s.drop_last() =~= Seq::<A>::empty());
    assert(s.last() == x);
    if pred(x) {
        assert(s.filter(pred) =~= seq![x]);
    } else {
        assert(s.filter(pred) =~= Seq::<A>::empty());
    }
}

/// Extending a prefix by one element extends its filtered form by that
/// element exactly when the predicate holds of it.
proof fn lemma_filter_take_step<A>(s: Seq<A>, pred: spec_fn(A) -> bool, i: int)
    requires
        0 <= i < s.len(),
    ensures
        s.subrange(0, i + 1).filter(pred) == s.subrange(0, i).filter(pred) + (if pred(s[i]) {
            seq![s[i]]
        } else {
            Seq::<A>::empty()
        }),
{
    assert(s.subrange(0, i + 1) =~= s.subrange(0, i) + seq![s[i]]);
    Seq::<A>::filter_distributes_over_add(s.subrange(0, i), seq![s[i]], pred);
    lemma_filter_singleton(s[i], pred);
}

/// A predicate that holds of every element leaves the sequence unchanged
/// under filtering.
proof fn lemma_filter_all<A>(s: Seq<A>, pred: spec_fn(A) -> bool)
    requires
        forall|i: int| 0 <= i < s.len() ==> pred(#[trigger] s[i]),
    ensures
        s.filter(pred) == s,
    decreases s.len(),
{
    reveal_with_fuel(Seq::filter, 1);
    if s.len() == 0 {
        assert(s.filter(pred) =~= s);
    } else {
        assert forall|i: int| 0 <= i < s.drop_last().len() implies pred(#[trigger] s.drop_last()[i]) by {
            assert(s.drop_last()[i] == s[i]);
        }
        lemma_filter_all(s.drop_last(), pred);
        assert(pred(s.last()));
        assert(s.filter(pred) =~= s);
    }
}

/// Every element of a filtered sequence is an element of the original.
proof fn lemma_filter_subset<A>(s: Seq<A>, pred: spec_fn(A) -> bool, x: A)
    requires
        s.filter(pred).contains(x),
    ensures
        s.contains(x),
    decreases s.len(),
{
    reveal_with_fuel(Seq::filter, 1);
    if s.len() == 0 {
        assert(s.filter(pred) =~= Seq::<A>::empty());
    } else {
        let f = s.filter(pred);
        let fd = s.drop_last().filter(pred);
        if pred(s.last()) && x == s.last() {
            assert(s[s.len() - 1] == x);
        } else {
            if pred(s.last()) {
                let k = choose|k: int| 0 <= k < f.len() && f[k] == x;
                assert(f == fd.push(s.last()));
                assert(k < fd.len());
                assert(fd[k] == f[k]);
                assert(fd.contains(x));
            } else {
                assert(f == fd);
            }
            lemma_filter_subset(s.drop_last(), pred, x);
            let m = choose|m: int| 0 <= m < s.drop_last().len() && s.drop_last()[m] == x;
            assert(s[m] == x);
        }
    }
}

/// The lines of `contents` that contain `query` as a substring, each a slice
/// of the original text, in their original order.
pub fn search<'a>(query: &str, contents: &'a str) -> (r: Vec<&'a str>)
    ensures
        views_of(r@) == spec_search(query@, contents@),
{
    let lines = split_lines(contents);
    let n = lines.len();
    let mut result: Vec<&'a str> = Vec::new();
    let mut i: usize = 0;
    proof {
        assert(views_of(lines@).subrange(0, 0) =~= Seq::<Seq<char>>::empty());
        lemma_filter_all(Seq::<Seq<char>>::empty(), |l: Seq<char>| spec_contains(l, query@));
    }
    while i < n
        invariant
            i <= n,
            n == lines@.len(),
            views_of(lines@) == spec_lines(contents@),
            views_of(result@) == spec_filter_matching(
                views_of(lines@).subrange(0, i as int),
                query@,
            ),
        decreases n - i,
    {
        let ghost old_views = views_of(result@);
        let line = lines[i];
        let matched = contains_substr(line, query);
        if matched {
            result.push(line);
        }
        proof {
            let lv = views_of(lines@);
            assert(lv[i as int] == line@);
            lemma_filter_take_step(lv, |l: Seq<char>| spec_contains(l, query@), i as int);
            if matched {
                assert(views_of(result@) =~= old_views + seq![line@]);
            } else {
                assert(old_views + Seq::<Seq<char>>::empty() =~= old_views);
            }
        }
        i += 1;
    }
    proof {
        assert(views_of(lines@).subrange(0, n as int) =~= views_of(lines@));
    }
    result
}

/// The lines of `contents` whose lowercase form contains the lowercase form
/// of `query`, each a slice of the original (not lowercased) text, in their
/// original order. An empty query matches every line.
pub fn search_case_insensitive<'a>(query: &str, contents: &'a str) -> (r: Vec<&'a str>)
    ensures
        views_of(r@) == spec_search_insensitive(query@, contents@),
        query@.len() == 0 ==> views_of(r@) == spec_lines(contents@),
{
    let lowered_query = lowercase(query);
    let lines = split_lines(contents);
    let n = lines.len();
    let mut result: Vec<&'a str> = Vec::new();
    let mut i: usize = 0;
    proof {
        assert(views_of(lines@).subrange(0, 0) =~= Seq::<Seq<char>>::empty());
        lemma_filter_all(
            Seq::<Seq<char>>::empty(),
            |l: Seq<char>| spec_contains(lower_of(l), lower_of(query@)),
        );
    }
    while i < n
        invariant
            i <= n,
            n == lines@.len(),
            views_of(lines@) == spec_lines(contents@),
            lowered_query@ == lower_of(query@),
            views_of(result@) == spec_filter_insensitive(
                views_of(lines@).subrange(0, i as int),
                query@,
            ),
        decreases n - i,
    {
        let ghost old_views = views_of(result@);
        let line = lines[i];
        let lowered_line = lowercase(line);
        let matched = contains_substr(lowered_line.as_str(), lowered_query.as_str());
        if matched {
            result.push(line);
        }
        proof {
            let lv = views_of(lines@);
            assert(lv[i as int] == line@);
            lemma_filter_take_step(
                lv,
                |l: Seq<char>| spec_contains(lower_of(l), lower_of(query@)),
                i as int,
            );
            if matched {
                assert(views_of(result@) =~= old_views + seq![line@]);
            } else {
                assert(old_views + Seq::<Seq<char>>::empty() =~= old_views);
            }
        }
        i += 1;
    }
    proof {
        assert(views_of(lines@).subrange(0, n as int) =~= views_of(lines@));
        if query@.len() == 0 {
            assert(lower_of(query@) =~= Seq::<char>::empty());
            assert forall|k: int| 0 <= k < spec_lines(contents@).len() implies (|l: Seq<char>|
            spec_contains(lower_of(l), lower_of(query@)))(
                #[trigger] spec_lines(contents@)[k],
            ) by {
                lemma_contains_empty(lower_of(spec_lines(contents@)[k]), lower_of(query@));
            }
            lemma_filter_all(
                spec_lines(contents@),
                |l: Seq<char>| spec_contains(lower_of(l), lower_of(query@)),
            );
        }
    }
    result
}

/// Runs the matching variant that `config` calls for on `contents`.
pub fn search_with_config<'a>(config: &Config, contents: &'a str) -> (r: Vec<&'a str>)
    ensures
        config.case_sensitive ==> views_of(r@) == spec_search(config.query@, contents@),
        !config.case_sensitive ==> views_of(r@) == spec_search_insensitive(
            config.query@,
            contents@,
        ),
{
    if config.case_sensitive {
        search(config.query.as_str(), contents)
    } else {
        search_case_insensitive(config.query.as_str(), contents)
    }
}

/// Law: the case-sensitive search selects exactly the matching lines —
/// every line of the content that contains the query appears in the result,
/// and every line of the result contains the query.
pub proof fn lemma_search_matches(query: Seq<char>, contents: Seq<char>)
    ensures
        forall|i: int|
            0 <= i < spec_lines(contents).len() && spec_contains(
                #[trigger] spec_lines(contents)[i],
                query,
            ) ==> spec_search(query, contents).contains(spec_lines(contents)[i]),
        forall|j: int|
            0 <= j < spec_search(query, contents).len() ==> spec_contains(
                #[trigger] spec_search(query, contents)[j],
                query,
            ),
{
    let lines = spec_lines(contents);
    let pred = |l: Seq<char>| spec_contains(l, query);
    assert forall|i: int|
        0 <= i < lines.len() && spec_contains(
            #[trigger] lines[i],
            query,
        ) implies spec_search(query, contents).contains(lines[i]) by {
        lines.lemma_filter_contains(pred, i);
    }
    assert forall|j: int| 0 <= j < spec_search(query, contents).len() implies spec_contains(
        #[trigger] spec_search(query, contents)[j],
        query,
    ) by {
        lines.lemma_filter_pred(pred, j);
    }
}

/// Law (restricted to text that lowercasing leaves unchanged): every line
/// found by the case-sensitive search is also found by the case-insensitive
/// search for the same query and content.
pub proof fn lemma_search_superset_insensitive(query: Seq<char>, contents: Seq<char>)
    requires
        lower_of(query) == query,
        forall|i: int|
            0 <= i < spec_lines(contents).len() ==> lower_of(#[trigger] spec_lines(contents)[i])
                == spec_lines(contents)[i],
    ensures
        forall|l: Seq<char>|
            #[trigger] spec_search(query, contents).contains(l) ==> spec_search_insensitive(
                query,
                contents,
            ).contains(l),
{
    let lines = spec_lines(contents);
    let pred_s = |l: Seq<char>| spec_contains(l, query);
    let pred_i = |l: Seq<char>| spec_contains(lower_of(l), lower_of(query));
    assert forall|l: Seq<char>|
        #[trigger] spec_search(query, contents).contains(l) implies spec_search_insensitive(
        query,
        contents,
    ).contains(l) by {
        let fidx = choose|fi: int|
            0 <= fi < lines.filter(pred_s).len() && lines.filter(pred_s)[fi] == l;
        lines.lemma_filter_pred(pred_s, fidx);
        lemma_filter_subset(lines, pred_s, l);
        let idx = choose|m: int| 0 <= m < lines.len() && lines[m] == l;
        assert(lower_of(lines[idx]) == lines[idx]);
        assert(pred_i(lines[idx]));
        lines.lemma_filter_contains(pred_i, idx);
    }
}

/// Law: both matching variants are deterministic — the same query and
/// content always give the same result.
pub proof fn lemma_search_deterministic(
    query: Seq<char>,
    contents: Seq<char>,
    case_sensitive: bool,
    r1: Seq<Seq<char>>,
    r2: Seq<Seq<char>>,
)
    requires
        r1 == (if case_sensitive {
            spec_search(query, contents)
        } else {
            spec_search_insensitive(query, contents)
        }),
        r2 == (if case_sensitive {
            spec_search(query, contents)
        } else {
            spec_search_insensitive(query, contents)
        }),
    ensures
        r1 == r2,
{
}

/// Law: empty content yields an empty result for any query, in both
/// variants, and an empty query leaves the case-sensitive search with the
/// full sequence of lines unchanged.
pub proof fn lemma_search_boundary(query: Seq<char>, contents: Seq<char>)
    ensures
        contents.len() == 0 ==> spec_search(query, contents) == Seq::<Seq<char>>::empty(),
        contents.len() == 0 ==> spec_search_insensitive(query, contents) == Seq::<
            Seq<char>,
        >::empty(),
        query.len() == 0 ==> spec_search(query, contents) == spec_lines(contents),
{
    let lines = spec_lines(contents);
    if contents.len() == 0 {
        assert(lines =~= Seq::<Seq<char>>::empty());
        lemma_filter_all(lines, |l: Seq<char>| spec_contains(l, query));
        lemma_filter_all(lines, |l: Seq<char>| spec_contains(lower_of(l), lower_of(query)));
    }
    if query.len() == 0 {
        assert forall|k: int| 0 <= k < lines.len() implies (|l: Seq<char>|
        spec_contains(l, query))(#[trigger] lines[k]) by {
            lemma_contains_empty(lines[k], query);
        }
        lemma_filter_all(lines, |l: Seq<char>| spec_contains(l, query));
    }
}

} // verus!
