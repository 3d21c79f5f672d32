//! Search results as the web front end shows them: one per crate name, in name order.

use vstd::prelude::*;

use crate::errors::Error;
use crate::index::{hit_view, Indexer, SEARCH_LIMIT};
use crate::text::{trim, trimmed};
use crate::name_order::{
    lemma_name_before_irreflexive, lemma_name_before_total, lemma_name_before_transitive,
    name_before, name_precedes,
};

verus! {

broadcast use {
    vstd::seq_lib::to_multiset_build,
    vstd::seq_lib::to_multiset_insert,
    vstd::seq_lib::to_multiset_contains,
    vstd::seq_lib::to_multiset_len,
    vstd::seq_lib::to_multiset_remove,
};

/// One hit of a search: a crate's name, its newest version and its description.
pub struct SearchResult {
    pub name: String,
    pub version: String,
    pub description: Option<String>,
}

impl From<(String, String, Option<String>)> for SearchResult {
    fn from(result: (String, String, Option<String>)) -> (r: SearchResult) {
        SearchResult { name: result.0, version: result.1, description: result.2 }
    }
}

impl vstd::std_specs::convert::FromSpecImpl<(String, String, Option<String>)> for SearchResult {
    open spec fn obeys_from_spec() -> bool {
        true
    }

    open spec fn from_spec(v: (String, String, Option<String>)) -> SearchResult {
        SearchResult { name: v.0, version: v.1, description: v.2 }
    }
}

/// Some result in `s` is called `name`.
pub open spec fn name_in(s: Seq<SearchResult>, name: Seq<char>) -> bool {
    exists|j: int| 0 <= j < s.len() && #[trigger] s[j].name@ == name
}

/// The results of `s` whose name does not occur earlier in `s`, in their order.
pub open spec fn first_by_name(s: Seq<SearchResult>) -> Seq<SearchResult>
    decreases s.len(),
{
    if s.len() == 0 {
        Seq::empty()
    } else if name_in(s.drop_last(), s.last().name@) {
        first_by_name(s.drop_last())
    } else {
        first_by_name(s.drop_last()).push(s.last())
    }
}

/// Every result comes strictly before the next ones by name.
pub open spec fn sorted_by_name(s: Seq<SearchResult>) -> bool {
    forall|i: int, j: int| 0 <= i < j < s.len() ==> name_before(#[trigger] s[i].name@, #[trigger] s[j].name@)
}

/// The results of `results`, one per name (the first one of each name), in name
/// order.
pub open spec fn arranged(results: Seq<SearchResult>, r: Seq<SearchResult>) -> bool {
    &&& sorted_by_name(r)
    &&& r.to_multiset() == first_by_name(results).to_multiset()
}

/// Tells whether some result in `s` is called `name`.
fn contains_name(s: &Vec<SearchResult>, name: &String) -> (r: bool)
    ensures
        r == name_in(s@, name@),
{
    let mut j: usize = 0;
    while j < s.len()
        invariant
            j <= s.len(),
            forall|t: int| 0 <= t < j ==> s@[t].name@ != name@,
        decreases s.len() - j,
    {
        if s[j].name == *name {
            return true;
        }
        j = j + 1;
    }
    false
}

/// The place in the sorted `s` where a result called `name` belongs.
fn insert_position(s: &Vec<SearchResult>, name: &str) -> (p: usize)
    requires
        sorted_by_name(s@),
        !name_in(s@, name@),
    ensures
        p <= s.len(),
        forall|t: int| 0 <= t < p ==> name_before(#[trigger] s@[t].name@, name@),
        p < s.len() ==> name_before(name@, s@[p as int].name@),
{
    let mut p: usize = 0;
    while p < s.len() && !name_precedes(name, s[p].name.as_str())
        invariant
            p <= s.len(),
            !name_in(s@, name@),
            forall|t: int| 0 <= t < p ==> name_before(#[trigger] s@[t].name@, name@),
        decreases s.len() - p,
    {
        proof {
            assert(s@[p as int].name@ != name@);
            lemma_name_before_total(s@[p as int].name@, name@);
        }
        p = p + 1;
    }
    p
}

/// Putting `x` at its place keeps a sequence sorted by name.
proof fn lemma_insert_sorted(s: Seq<SearchResult>, p: int, x: SearchResult)
    requires
        sorted_by_name(s),
        0 <= p <= s.len(),
        forall|t: int| 0 <= t < p ==> name_before(#[trigger] s[t].name@, x.name@),
        p < s.len() ==> name_before(x.name@, s[p].name@),
    ensures
        sorted_by_name(s.insert(p, x)),
{
    let n = s.insert(p, x);
    assert forall|i: int, j: int| 0 <= i < j < n.len() implies name_before(#[trigger] n[i].name@, #[trigger] n[j].name@) by {
        if j < p {
        } else if j == p {
        } else if i < p {
            assert(n[j] == s[j - 1]);
        } else if i == p {
            assert(n[j] == s[j - 1]);
            if j - 1 > p {
                lemma_name_before_transitive(x.name@, s[p].name@, s[j - 1].name@);
            }
        } else {
            assert(n[i] == s[i - 1]);
            assert(n[j] == s[j - 1]);
        }
    }
}

/// Keeps the first result of each name and puts the kept ones in name order.
pub fn unique_sorted_by_name(results: Vec<SearchResult>) -> (r: Vec<SearchResult>)
    ensures
        arranged(results@, r@),
{
    let ghost orig = results@;
    let mut input = results;
    let mut out: Vec<SearchResult> = Vec::new();
    let ghost mut k: int = 0;
    proof {
        assert(orig.skip(0) =~= orig);
        assert(orig.take(0) =~= Seq::<SearchResult>::empty());
    }
    while input.len() > 0
        invariant
            0 <= k <= orig.len(),
            input@ == orig.skip(k),
            sorted_by_name(out@),
            out@.to_multiset() == first_by_name(orig.take(k)).to_multiset(),
            forall|nm: Seq<char>| name_in(out@, nm) <==> name_in(orig.take(k), nm),
        decreases input.len(),
    {
        let x = input.remove(0);
        let ghost prefix = orig.take(k);
        let ghost next = orig.take(k + 1);
        proof {
            assert(x == orig[k]);
            assert(next.drop_last() =~= prefix);
            assert(next.last() == x);
            assert(input@ =~= orig.skip(k + 1));
        }
        let seen = contains_name(&out, &x.name);
        if !seen {
            let p = insert_position(&out, x.name.as_str());
            let ghost old_out = out@;
            proof {
                lemma_insert_sorted(old_out, p as int, x);
            }
            out.insert(p, x);
            proof {
                assert(out@ == old_out.insert(p as int, x));
                assert forall|nm: Seq<char>| name_in(out@, nm) <==> name_in(next, nm) by {
                    if name_in(out@, nm) {
                        let j = choose|j: int| 0 <= j < out@.len() && #[trigger] out@[j].name@ == nm;
                        if j < p {
                            assert(old_out[j] == out@[j]);
                        } else if j > p {
                            assert(old_out[j - 1] == out@[j]);
                        }
                        if nm != x.name@ {
                            assert(name_in(old_out, nm));
                            let i = choose|i: int| 0 <= i < prefix.len() && #[trigger] prefix[i].name@ == nm;
                            assert(next[i] == prefix[i]);
                        } else {
                            assert(next[k] == x);
                        }
                    }
                    if name_in(next, nm) {
                        let i = choose|i: int| 0 <= i < next.len() && #[trigger] next[i].name@ == nm;
                        if i < k {
                            assert(prefix[i] == next[i]);
                            assert(name_in(old_out, nm));
                            let j = choose|j: int| 0 <= j < old_out.len() && #[trigger] old_out[j].name@ == nm;
                            if j < p {
                                assert(out@[j] == old_out[j]);
                            } else {
                                assert(out@[j + 1] == old_out[j]);
                            }
                        } else {
                            assert(out@[p as int] == x);
                        }
                    }
                }
            }
        } else {
            proof {
                assert forall|nm: Seq<char>| name_in(out@, nm) <==> name_in(next, nm) by {
                    if name_in(next, nm) {
                        let i = choose|i: int| 0 <= i < next.len() && #[trigger] next[i].name@ == nm;
                        if i < k {
                            assert(prefix[i] == next[i]);
                        }
                    }
                    if name_in(prefix, nm) {
                        let i = choose|i: int| 0 <= i < prefix.len() && #[trigger] prefix[i].name@ == nm;
                        assert(next[i] == prefix[i]);
                    }
                }
            }
        }
        proof {
            k = k + 1;
        }
    }
    proof {
        assert(orig.take(k) =~= orig);
    }
    out
}

/// The results built from the `(name, version, description)` triples in `raw`.
pub open spec fn results_of(raw: Seq<(String, String, Option<String>)>) -> Seq<SearchResult> {
    raw.map_values(|t: (String, String, Option<String>)| SearchResult { name: t.0, version: t.1, description: t.2 })
}

/// Turns the hits of a search into results, keeps the first result of each name,
/// and puts them in name order.
pub fn search_results(raw: Vec<(String, String, Option<String>)>) -> (r: Vec<SearchResult>)
    ensures
        arranged(results_of(raw@), r@),
{
    let ghost orig = raw@;
    let mut input = raw;
    let mut results: Vec<SearchResult> = Vec::new();
    let ghost mut k: int = 0;
    proof {
        assert(orig.skip(0) =~= orig);
    }
    while input.len() > 0
        invariant
            0 <= k <= orig.len(),
            input@ == orig.skip(k),
            results@ =~= results_of(orig.take(k)),
        decreases input.len(),
    {
        let t = input.remove(0);
        proof {
            assert(t == orig[k]);
            assert(input@ =~= orig.skip(k + 1));
        }
        results.push(SearchResult::from(t));
        proof {
            k = k + 1;
        }
    }
    proof {
        assert(orig.take(k) =~= orig);
    }
    unique_sorted_by_name(results)
}

/// `results` are what the search page shows of some search for `text`: the hits
/// it found, as results, one per name, in name order.
pub open spec fn page_of(indexer: Indexer, text: Seq<char>, results: Seq<SearchResult>) -> bool {
    exists|hits: Seq<(String, String, Option<String>)>|
        #![trigger results_of(hits)]
        indexer.found(text, hits.map_values(|h: (String, String, Option<String>)| hit_view(h)))
            && arranged(results_of(hits), results)
}

/// Two texts typed in the search box that trim to the same text are searched
/// alike: the same pages may be shown for them, and they fail alike.
pub proof fn lemma_search_page_reads_trimmed_text(indexer: Indexer, q1: Seq<char>, q2: Seq<char>, results: Seq<SearchResult>)
    requires
        trimmed(q1) == trimmed(q2),
    ensures
        page_of(indexer, trimmed(q1), results) == page_of(indexer, trimmed(q2), results),
        indexer.query_parses(trimmed(q1)) == indexer.query_parses(trimmed(q2)),
        indexer.found_malformed(trimmed(q1)) == indexer.found_malformed(trimmed(q2)),
{
}

/// What the search page shows for the text typed in the search box: the text is
/// trimmed of surrounding white space and only the trimmed text is searched for;
/// the hits become results, one per name, in name order. Fails as the search of
/// the trimmed text fails.
pub fn search_page(indexer: &Indexer, query: &str) -> (r: Result<Vec<SearchResult>, Error>)
    ensures
        r matches Ok(results) ==> results.len() <= SEARCH_LIMIT && page_of(*indexer, trimmed(query@), results@),
        !indexer.query_parses(trimmed(query@)) ==> (r matches Err(e) && (e is Query || e is Engine)),
        r matches Err(Error::Query(_)) ==> !indexer.query_parses(trimmed(query@)),
        r matches Err(Error::MalformedDocument) ==> indexer.found_malformed(trimmed(query@)),
        r matches Err(e) ==> (e is Engine || e is Query || e is MalformedDocument),
{
    let text = trim(query);
    let hits = match indexer.search(text) {
        Ok(h) => h,
        Err(e) => return Err(e),
    };
    let ghost raw = hits@;
    let results = search_results(hits);
    proof {
        assert(results@.to_multiset().len() == results@.len());
        lemma_first_by_name_len(results_of(raw));
        assert(arranged(results_of(raw), results@));
    }
    Ok(results)
}

/// A name occurs among the first results of each name exactly when it occurs in
/// the results.
proof fn lemma_first_by_name_names(s: Seq<SearchResult>, nm: Seq<char>)
    ensures
        name_in(first_by_name(s), nm) <==> name_in(s, nm),
    decreases s.len(),
{
    if s.len() > 0 {
        let init = s.drop_last();
        lemma_first_by_name_names(init, nm);
        let f = first_by_name(init);
        if name_in(f, nm) {
            let j = choose|j: int| 0 <= j < f.len() && #[trigger] f[j].name@ == nm;
            assert(first_by_name(s)[j] == f[j]);
        }
        if name_in(init, nm) {
            let i = choose|i: int| 0 <= i < init.len() && #[trigger] init[i].name@ == nm;
            assert(s[i] == init[i]);
        }
        if name_in(s, nm) && !name_in(init, nm) {
            let i = choose|i: int| 0 <= i < s.len() && #[trigger] s[i].name@ == nm;
            if i < init.len() {
                assert(init[i] == s[i]);
            }
            assert(first_by_name(s).last() == s.last());
        }
        if name_in(first_by_name(s), nm) && !name_in(f, nm) {
            let j = choose|j: int| 0 <= j < first_by_name(s).len() && #[trigger] first_by_name(s)[j].name@ == nm;
            if j < f.len() {
                assert(first_by_name(s)[j] == f[j]);
            }
            assert(s[s.len() - 1] == s.last());
        }
    }
}

/// Keeping the first result of each name keeps at most as many results.
proof fn lemma_first_by_name_len(s: Seq<SearchResult>)
    ensures
        first_by_name(s).len() <= s.len(),
    decreases s.len(),
{
    if s.len() > 0 {
        lemma_first_by_name_len(s.drop_last());
    }
}

/// Every result kept by `first_by_name` is the first result of its name.
proof fn lemma_first_by_name_firsts(s: Seq<SearchResult>, t: int)
    requires
        0 <= t < first_by_name(s).len(),
    ensures
        exists|i: int| #![trigger s[i]]
            0 <= i < s.len() && s[i] == first_by_name(s)[t] && !name_in(s.take(i), s[i].name@),
    decreases s.len(),
{
    let init = s.drop_last();
    let f = first_by_name(init);
    if t < f.len() {
        assert(first_by_name(s)[t] == f[t]);
        lemma_first_by_name_firsts(init, t);
        let i = choose|i: int| 0 <= i < init.len() && init[i] == f[t] && !name_in(init.take(i), init[i].name@);
        assert(init.take(i) =~= s.take(i));
        assert(s[i] == init[i]);
    } else {
        let i = s.len() - 1;
        assert(s.take(i) =~= init);
        assert(s[i] == first_by_name(s)[t]);
    }
}

/// What the search page shows: for results arranged from `results`, no two share
/// a name, they are in strict name order, the names shown are exactly the names
/// in `results`, and each one shown is the first result of its name in `results`.
pub proof fn lemma_arranged_results(results: Seq<SearchResult>, r: Seq<SearchResult>)
    requires
        arranged(results, r),
    ensures
        forall|i: int, j: int| 0 <= i < r.len() && 0 <= j < r.len() && i != j ==> r[i].name@ != r[j].name@,
        forall|i: int, j: int| 0 <= i < j < r.len() ==> name_before(r[i].name@, r[j].name@),
        forall|nm: Seq<char>| name_in(r, nm) <==> name_in(results, nm),
        forall|k: int| #![trigger r[k]] 0 <= k < r.len() ==> exists|i: int| #![trigger results[i]]
            0 <= i < results.len() && results[i] == r[k] && !name_in(results.take(i), results[i].name@),
{
    let f = first_by_name(results);
    assert forall|i: int, j: int| 0 <= i < r.len() && 0 <= j < r.len() && i != j implies r[i].name@ != r[j].name@ by {
        if i < j {
            lemma_name_before_irreflexive(r[i].name@);
        } else {
            lemma_name_before_irreflexive(r[j].name@);
        }
    }
    assert forall|k: int| 0 <= k < r.len() implies f.contains(#[trigger] r[k]) by {
        assert(r.contains(r[k]));
        assert(r.to_multiset().count(r[k]) > 0);
        assert(f.to_multiset().count(r[k]) > 0);
    }
    assert forall|nm: Seq<char>| name_in(r, nm) <==> name_in(results, nm) by {
        lemma_first_by_name_names(results, nm);
        if name_in(r, nm) {
            let j = choose|j: int| 0 <= j < r.len() && #[trigger] r[j].name@ == nm;
            assert(f.contains(r[j]));
            let t = choose|t: int| 0 <= t < f.len() && f[t] == r[j];
            assert(f[t].name@ == nm);
        }
        if name_in(f, nm) {
            let t = choose|t: int| 0 <= t < f.len() && #[trigger] f[t].name@ == nm;
            assert(f.contains(f[t]));
            assert(f.to_multiset().count(f[t]) > 0);
            assert(r.to_multiset().count(f[t]) > 0);
            let j = choose|j: int| 0 <= j < r.len() && r[j] == f[t];
            assert(r[j].name@ == nm);
        }
    }
    assert forall|k: int| #![trigger r[k]] 0 <= k < r.len() implies exists|i: int| #![trigger results[i]]
        0 <= i < results.len() && results[i] == r[k] && !name_in(results.take(i), results[i].name@) by {
        assert(f.contains(r[k]));
        let t = choose|t: int| 0 <= t < f.len() && f[t] == r[k];
        lemma_first_by_name_firsts(results, t);
    }
}

/// Two sequences in strict name order with the same results are the same.
proof fn lemma_sorted_same_results(a: Seq<SearchResult>, b: Seq<SearchResult>)
    requires
        sorted_by_name(a),
        sorted_by_name(b),
        a.to_multiset() == b.to_multiset(),
    ensures
        a == b,
    decreases a.len(),
{
    if a.len() == 0 {
        assert(b.to_multiset().len() == 0);
        assert(a =~= b);
    } else {
        assert(b.len() == a.len()) by {
            assert(a.to_multiset().len() == a.len());
            assert(b.to_multiset().len() == b.len());
        }
        assert(b.contains(b[0]));
        assert(b.to_multiset().count(b[0]) > 0);
        assert(a.to_multiset().count(b[0]) > 0);
        let i = choose|i: int| 0 <= i < a.len() && a[i] == b[0];
        assert(a.contains(a[0]));
        assert(a.to_multiset().count(a[0]) > 0);
        assert(b.to_multiset().count(a[0]) > 0);
        let j = choose|j: int| 0 <= j < b.len() && b[j] == a[0];
        if i > 0 {
            assert(name_before(a[0].name@, a[i].name@));
            if j > 0 {
                assert(name_before(b[0].name@, b[j].name@));
                lemma_name_before_transitive(b[0].name@, b[j].name@, b[0].name@);
                lemma_name_before_irreflexive(b[0].name@);
            } else {
                lemma_name_before_irreflexive(a[0].name@);
            }
        }
        assert(a[0] == b[0]);
        assert(a.remove(0) =~= a.drop_first());
        assert(b.remove(0) =~= b.drop_first());
        assert(a.drop_first().to_multiset() == b.drop_first().to_multiset());
        lemma_sorted_same_results(a.drop_first(), b.drop_first());
        assert(a =~= seq![a[0]] + a.drop_first());
        assert(b =~= seq![b[0]] + b.drop_first());
    }
}

/// The results page is determined by the hits: results arranged from the same
/// results are the same.
pub proof fn lemma_arranged_is_determined(results: Seq<SearchResult>, r1: Seq<SearchResult>, r2: Seq<SearchResult>)
    requires
        arranged(results, r1),
        arranged(results, r2),
    ensures
        r1 == r2,
{
    lemma_sorted_same_results(r1, r2);
}

} // verus!


