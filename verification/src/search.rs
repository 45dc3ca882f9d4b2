//! Fuzzy filtering of the command list.
use fuzzy_matcher::skim::SkimMatcherV2;
use fuzzy_matcher::FuzzyMatcher;
use vstd::prelude::*;

verus! {

/// The characters of each string, in order.
pub open spec fn views(v: Seq<String>) -> Seq<Seq<char>> {
    v.map_values(|s: String| s@)
}

/// The score that a default `SkimMatcherV2` gives `choice` for `pattern`;
/// `None` when the pattern does not match.
pub uninterp spec fn skim_score(choice: Seq<char>, pattern: Seq<char>) -> Option<i64>;

/// Calls `FuzzyMatcher::fuzzy_match` on a default `SkimMatcherV2`. The result
/// is taken to be `skim_score` of the two texts (the matcher's configuration
/// is fixed and its caches do not change results); its source returns
/// `Some(0)` for an empty pattern.
#[verifier::external_body]
fn skim_fuzzy_match(choice: &str, pattern: &str) -> (r: Option<i64>)
    ensures
        r == skim_score(choice@, pattern@),
        pattern@.len() == 0 ==> r == Some(0i64),
{
    SkimMatcherV2::default().fuzzy_match(choice, pattern)
}

/// The scores of every item against `query`.
pub open spec fn skim_scores(items: Seq<Seq<char>>, query: Seq<char>) -> Seq<Option<i64>> {
    Seq::new(items.len(), |i: int| skim_score(items[i], query))
}

/// Item `i` comes before item `j`: a higher score, or the same score and an
/// earlier position.
pub open spec fn ranks_before(scores: Seq<Option<i64>>, i: int, j: int) -> bool {
    let a = scores[i]->0;
    let b = scores[j]->0;
    a > b || (a == b && i < j)
}

/// `p` lists exactly the scored positions below `m`, best first, ties in their
/// original order.
pub open spec fn ranks_prefix(scores: Seq<Option<i64>>, p: Seq<int>, m: int) -> bool {
    &&& forall|k: int|
        0 <= k < p.len() ==> 0 <= #[trigger] p[k] < m && p[k] < scores.len() && scores[p[k]] is Some
    &&& forall|i: int| 0 <= i < m && i < scores.len() && #[trigger] scores[i] is Some ==> p.contains(i)
    &&& forall|a: int, b: int|
        0 <= a < b < p.len() ==> ranks_before(scores, #[trigger] p[a], #[trigger] p[b])
}

/// `p` lists every scored position, best first, ties in their original order.
pub open spec fn is_ranking(scores: Seq<Option<i64>>, p: Seq<int>) -> bool {
    ranks_prefix(scores, p, scores.len() as int)
}

/// `out` is `items` without the unscored ones, sorted by descending score, ties
/// in their original order.
pub open spec fn ranked_by(items: Seq<Seq<char>>, scores: Seq<Option<i64>>, out: Seq<Seq<char>>) -> bool {
    exists|p: Seq<int>| #[trigger] is_ranking(scores, p) && out == p.map_values(|i: int| items[i])
}

/// Keeps the commands that have a score, ordered by descending score; commands
/// with equal scores keep their order.
pub fn rank_by_score(commands: &[String], scores: &[Option<i64>]) -> (res: Vec<String>)
    requires
        commands@.len() == scores@.len(),
    ensures
        ranked_by(views(commands@), scores@, views(res@)),
{
    let n = scores.len();
    let mut ranked: Vec<(i64, usize)> = Vec::new();
    let ghost mut p: Seq<int> = Seq::empty();
    let mut i: usize = 0;
    while i < n
        invariant
            n == scores@.len(),
            i <= n,
            ranked@.len() == p.len(),
            forall|k: int|
                #![trigger ranked@[k]]
                0 <= k < p.len() ==> ranked@[k].1 as int == p[k] && scores@[p[k]] == Some(
                    ranked@[k].0,
                ),
            ranks_prefix(scores@, p, i as int),
        decreases n - i,
    {
        match scores[i] {
            Some(sc) => {
                let mut pos: usize = 0;
                while pos < ranked.len() && ranked[pos].0 >= sc
                    invariant
                        pos <= ranked@.len(),
                        forall|k: int| 0 <= k < pos ==> ranked@[k].0 >= sc,
                    decreases ranked@.len() - pos,
                {
                    pos = pos + 1;
                }
                proof {
                    // Scores never rise along the ranking.
                    assert forall|k: int| pos <= k < p.len() implies ranked@[k].0 < sc by {
                        if k > pos {
                            assert(ranks_before(scores@, p[pos as int], p[k]));
                            assert(ranked@[pos as int].1 as int == p[pos as int]);
                            assert(ranked@[k].1 as int == p[k]);
                        }
                    }
                }
                let ghost old_ranked = ranked@;
                ranked.insert(pos, (sc, i));
                let ghost old_p = p;
                proof {
                    p = p.insert(pos as int, i as int);
                    assert forall|a: int, b: int| 0 <= a < b < p.len() implies ranks_before(
                        scores@,
                        #[trigger] p[a],
                        #[trigger] p[b],
                    ) by {
                        if a < pos && b < pos {
                            assert(ranks_before(scores@, old_p[a], old_p[b]));
                        } else if a < pos && b == pos {
                            assert(old_ranked[a].1 as int == old_p[a]);
                        } else if a < pos && b > pos {
                            assert(ranks_before(scores@, old_p[a], old_p[b - 1]));
                        } else if a == pos {
                            assert(old_ranked[b - 1].1 as int == old_p[b - 1]);
                            assert(old_p[b - 1] < i);
                        } else {
                            assert(ranks_before(scores@, old_p[a - 1], old_p[b - 1]));
                        }
                    }
                    assert forall|j: int|
                        0 <= j < i + 1 && j < scores@.len() && #[trigger] scores@[j] is Some implies p.contains(j) by {
                        if j == i {
                            assert(p[pos as int] == j);
                        } else {
                            assert(old_p.contains(j));
                            let t = choose|t: int| 0 <= t < old_p.len() && old_p[t] == j;
                            if t < pos {
                                assert(p[t] == j);
                            } else {
                                assert(p[t + 1] == j);
                            }
                        }
                    }
                    assert forall|k: int| 0 <= k < p.len() implies #[trigger] ranked@[k].1 as int
                        == p[k] && scores@[p[k]] == Some(ranked@[k].0) by {
                        if k < pos {
                            assert(old_ranked[k].1 as int == old_p[k]);
                        } else if k == pos {
                            assert(scores@[i as int] == Some(sc));
                        } else {
                            assert(ranked@[k] == old_ranked[k - 1]);
                            assert(old_ranked[k - 1].1 as int == old_p[k - 1]);
                        }
                    }
                }
            },
            None => {
                proof {
                    assert forall|j: int|
                        0 <= j < i + 1 && j < scores@.len() && #[trigger] scores@[j] is Some implies p.contains(j) by {
                        if j < i {
                        }
                    }
                }
            },
        }
        i = i + 1;
    }
    let mut res: Vec<String> = Vec::new();
    let mut k: usize = 0;
    while k < ranked.len()
        invariant
            n == scores@.len(),
            commands@.len() == n,
            ranked@.len() == p.len(),
            k <= ranked@.len(),
            forall|j: int|
                #![trigger ranked@[j]]
                0 <= j < p.len() ==> ranked@[j].1 as int == p[j] && scores@[p[j]] == Some(
                    ranked@[j].0,
                ),
            ranks_prefix(scores@, p, n as int),
            views(res@) == p.take(k as int).map_values(|j: int| views(commands@)[j]),
        decreases ranked@.len() - k,
    {
        let idx = ranked[k].1;
        assert(ranked@[k as int].1 as int == p[k as int]);
        let c = commands[idx].clone();
        let ghost old_res = res@;
        res.push(c);
        assert(views(res@) =~= views(old_res).push(commands@[idx as int]@));
        assert(p.take(k + 1) =~= p.take(k as int).push(p[k as int]));
        k = k + 1;
        assert(views(res@) =~= p.take(k as int).map_values(|j: int| views(commands@)[j]));
    }
    assert(p.take(k as int) =~= p);
    assert(is_ranking(scores@, p));
    res
}

/// Two lists of distinct positions, each sorted by `ranks_before`, that hold the
/// same positions are equal.
proof fn lemma_sorted_same_elements_equal(scores: Seq<Option<i64>>, p1: Seq<int>, p2: Seq<int>)
    requires
        forall|a: int, b: int|
            0 <= a < b < p1.len() ==> ranks_before(scores, #[trigger] p1[a], #[trigger] p1[b]),
        forall|a: int, b: int|
            0 <= a < b < p2.len() ==> ranks_before(scores, #[trigger] p2[a], #[trigger] p2[b]),
        forall|x: int| p1.contains(x) <==> p2.contains(x),
    ensures
        p1 == p2,
    decreases p1.len(),
{
    if p1.len() == 0 {
        if p2.len() > 0 {
            assert(p2.contains(p2[0]));
        }
        assert(p1 =~= p2);
    } else {
        assert(p1.contains(p1[0]));
        assert(p2.len() > 0);
        assert(p2.contains(p2[0]));
        let t = choose|t: int| 0 <= t < p2.len() && p2[t] == p1[0];
        let u = choose|u: int| 0 <= u < p1.len() && p1[u] == p2[0];
        if t > 0 && u > 0 {
            assert(ranks_before(scores, p2[0], p2[t]));
            assert(ranks_before(scores, p1[0], p1[u]));
            assert(false);
        }
        if t == 0 {
            assert(p1[0] == p2[0]);
        } else {
            assert(p1[0] == p2[0]);
        }
        let q1 = p1.drop_first();
        let q2 = p2.drop_first();
        assert forall|x: int| q1.contains(x) implies q2.contains(x) by {
            let a = choose|a: int| 0 <= a < q1.len() && q1[a] == x;
            assert(ranks_before(scores, p1[0], p1[a + 1]));
            assert(p2.contains(x));
            let b = choose|b: int| 0 <= b < p2.len() && p2[b] == x;
            if b == 0 {
                assert(false);
            }
            assert(q2[b - 1] == x);
        }
        assert forall|x: int| q2.contains(x) implies q1.contains(x) by {
            let a = choose|a: int| 0 <= a < q2.len() && q2[a] == x;
            assert(ranks_before(scores, p2[0], p2[a + 1]));
            assert(p1.contains(x));
            let b = choose|b: int| 0 <= b < p1.len() && p1[b] == x;
            if b == 0 {
                assert(false);
            }
            assert(q1[b - 1] == x);
        }
        assert forall|a: int, b: int| 0 <= a < b < q1.len() implies ranks_before(
            scores,
            #[trigger] q1[a],
            #[trigger] q1[b],
        ) by {
            assert(ranks_before(scores, p1[a + 1], p1[b + 1]));
        }
        assert forall|a: int, b: int| 0 <= a < b < q2.len() implies ranks_before(
            scores,
            #[trigger] q2[a],
            #[trigger] q2[b],
        ) by {
            assert(ranks_before(scores, p2[a + 1], p2[b + 1]));
        }
        lemma_sorted_same_elements_equal(scores, q1, q2);
        assert(p1 =~= seq![p1[0]] + q1);
        assert(p2 =~= seq![p2[0]] + q2);
    }
}

/// The ranked list is fully determined by the items and their scores: there is
/// only one list that `ranked_by` admits.
pub proof fn lemma_ranking_is_unique(
    items: Seq<Seq<char>>,
    scores: Seq<Option<i64>>,
    out1: Seq<Seq<char>>,
    out2: Seq<Seq<char>>,
)
    requires
        ranked_by(items, scores, out1),
        ranked_by(items, scores, out2),
    ensures
        out1 == out2,
{
    let p1 = choose|p: Seq<int>| #[trigger] is_ranking(scores, p) && out1 == p.map_values(|i: int| items[i]);
    let p2 = choose|p: Seq<int>| #[trigger] is_ranking(scores, p) && out2 == p.map_values(|i: int| items[i]);
    assert forall|x: int| p1.contains(x) implies p2.contains(x) by {
        let a = choose|a: int| 0 <= a < p1.len() && p1[a] == x;
        assert(scores[p1[a]] is Some);
    }
    assert forall|x: int| p2.contains(x) implies p1.contains(x) by {
        let a = choose|a: int| 0 <= a < p2.len() && p2[a] == x;
        assert(scores[p2[a]] is Some);
    }
    lemma_sorted_same_elements_equal(scores, p1, p2);
}

/// `out` is what searching `commands` for `query` gives: every command for an
/// empty query, else the matching commands best first.
pub open spec fn filter_result(query: Seq<char>, commands: Seq<Seq<char>>, out: Seq<Seq<char>>) -> bool {
    if query.len() == 0 {
        out == commands
    } else {
        ranked_by(commands, skim_scores(commands, query), out)
    }
}

/// A search has one result: `filter_result` admits only one list.
pub proof fn lemma_filter_result_unique(
    query: Seq<char>,
    commands: Seq<Seq<char>>,
    out1: Seq<Seq<char>>,
    out2: Seq<Seq<char>>,
)
    requires
        filter_result(query, commands, out1),
        filter_result(query, commands, out2),
    ensures
        out1 == out2,
{
    if query.len() != 0 {
        lemma_ranking_is_unique(commands, skim_scores(commands, query), out1, out2);
    }
}

/// What a search gives, in terms of the matcher's score against the whole
/// query: an empty query keeps the commands as they are; otherwise every entry
/// is one of the commands that the matcher scores, every scored command is
/// there, and the scores never rise along the list.
pub proof fn lemma_filter_result_members(
    query: Seq<char>,
    commands: Seq<Seq<char>>,
    out: Seq<Seq<char>>,
)
    requires
        filter_result(query, commands, out),
    ensures
        query.len() == 0 ==> out == commands,
        query.len() > 0 ==> forall|j: int|
            0 <= j < out.len() ==> skim_score(#[trigger] out[j], query) is Some && commands.contains(
                out[j],
            ),
        query.len() > 0 ==> forall|i: int|
            0 <= i < commands.len() && (#[trigger] skim_score(commands[i], query)) is Some
                ==> out.contains(commands[i]),
        query.len() > 0 ==> forall|a: int, b: int|
            0 <= a < b < out.len() ==> skim_score(#[trigger] out[a], query)->0 >= skim_score(
                #[trigger] out[b],
                query,
            )->0,
{
    if query.len() > 0 {
        let scores = skim_scores(commands, query);
        let p = choose|p: Seq<int>| #[trigger] is_ranking(scores, p) && out == p.map_values(|i: int| commands[i]);
        assert forall|j: int| 0 <= j < out.len() implies skim_score(#[trigger] out[j], query) is Some
            && commands.contains(out[j]) by {
            assert(out[j] == commands[p[j]]);
            assert(scores[p[j]] == skim_score(commands[p[j]], query));
        }
        assert forall|i: int|
            0 <= i < commands.len() && (#[trigger] skim_score(commands[i], query)) is Some implies out.contains(
            commands[i],
        ) by {
            assert(scores[i] is Some);
            assert(p.contains(i));
            let k = choose|k: int| 0 <= k < p.len() && p[k] == i;
            assert(out[k] == commands[i]);
        }
        assert forall|a: int, b: int| 0 <= a < b < out.len() implies skim_score(#[trigger] out[a], query)->0
            >= skim_score(#[trigger] out[b], query)->0 by {
            assert(ranks_before(scores, p[a], p[b]));
            assert(out[a] == commands[p[a]]);
            assert(out[b] == commands[p[b]]);
        }
    }
}

/// A copy of every string, in order.
pub fn copy_strings(v: &[String]) -> (res: Vec<String>)
    ensures
        views(res@) == views(v@),
{
    let mut all: Vec<String> = Vec::new();
    let mut i: usize = 0;
    while i < v.len()
        invariant
            i <= v@.len(),
            views(all@) == views(v@).take(i as int),
        decreases v@.len() - i,
    {
        let ghost before = all@;
        all.push(v[i].clone());
        assert(views(all@) =~= views(before).push(v@[i as int]@));
        assert(views(v@).take(i + 1) =~= views(v@).take(i as int).push(v@[i as int]@));
        i = i + 1;
    }
    assert(views(v@).take(i as int) =~= views(v@));
    all
}

/// Narrows `commands` to those that fuzzily match `query`, best match first;
/// an empty query keeps every command in its order.
pub fn filter_commands(query: &str, commands: &[String]) -> (res: Vec<String>)
    ensures
        filter_result(query@, views(commands@), views(res@)),
{
    if query.is_empty() {
        return copy_strings(commands);
    }
    let mut scores: Vec<Option<i64>> = Vec::new();
    let mut i: usize = 0;
    while i < commands.len()
        invariant
            i <= commands@.len(),
            scores@ == skim_scores(views(commands@), query@).take(i as int),
        decreases commands@.len() - i,
    {
        let s = skim_fuzzy_match(commands[i].as_str(), query);
        scores.push(s);
        i = i + 1;
        assert(scores@ =~= skim_scores(views(commands@), query@).take(i as int));
    }
    assert(scores@ =~= skim_scores(views(commands@), query@));
    rank_by_score(commands, scores.as_slice())
}

} // verus!
