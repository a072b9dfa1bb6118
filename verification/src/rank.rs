use vstd::prelude::*;

use vstd::multiset::Multiset;
use vstd::seq_lib::group_to_multiset_ensures;

use crate::window::Command;

verus! {

// Three independent orderings over a window's command list, each returning a
// new ordering without mutating the window: by recency, by usage count, and
// by fuzzy match against a free-text query. All three are defined as stable
// insertion sorts by a per-command integer key, descending; ties keep the
// original order.

/// Recency rank of a command: commands with a recorded use order by their
/// timestamp, and any command without one ranks below all of them.
pub open spec fn recency_key(c: Command) -> int {
    match c.meta {
        Some(m) => match m.last_used {
            Some(t) => t as int + 1,
            None => 0,
        },
        None => 0,
    }
}

/// Whether a command has no recorded use.
pub open spec fn never_used(c: Command) -> bool {
    recency_key(c) == 0
}

/// Usage rank of a command: its usage count, zero without metadata.
pub open spec fn usage_key(c: Command) -> int {
    match c.meta {
        Some(m) => m.usage_count as int,
        None => 0,
    }
}

/// Fuzzy match score of `text` against `query`: the number of query
/// characters consumed by a greedy left-to-right subsequence match. Zero
/// means no match at all.
pub open spec fn fuzzy_score(text: Seq<char>, query: Seq<char>) -> int
    decreases text.len(),
{
    if text.len() == 0 || query.len() == 0 {
        0
    } else if text[0] == query[0] {
        1 + fuzzy_score(text.drop_first(), query.drop_first())
    } else {
        fuzzy_score(text.drop_first(), query)
    }
}

/// A command paired with the integer key it is ranked by.
#[derive(Debug)]
pub struct Scored {
    pub key: u128,
    pub cmd: Command,
}

/// Stable descending insertion: `x` goes after every element whose key is at
/// least `x.key`, before the first strictly smaller one.
pub open spec fn insert_desc(s: Seq<Scored>, x: Scored) -> Seq<Scored>
    decreases s.len(),
{
    if s.len() == 0 {
        seq![x]
    } else if s[0].key >= x.key {
        seq![s[0]] + insert_desc(s.drop_first(), x)
    } else {
        seq![x] + s
    }
}

/// Stable descending insertion sort by key: elements are inserted left to
/// right, so elements with equal keys keep their original order.
pub open spec fn sort_desc(s: Seq<Scored>) -> Seq<Scored>
    decreases s.len(),
{
    if s.len() == 0 {
        Seq::empty()
    } else {
        insert_desc(sort_desc(s.drop_last()), s.last())
    }
}

/// Keys are non-increasing from left to right.
pub open spec fn sorted_desc(s: Seq<Scored>) -> bool {
    forall|i: int, j: int| 0 <= i < j < s.len() ==> s[i].key >= s[j].key
}

/// Every command of `s`, paired with its recency key.
pub open spec fn recency_scored(s: Seq<Command>) -> Seq<Scored>
    decreases s.len(),
{
    if s.len() == 0 {
        Seq::empty()
    } else {
        recency_scored(s.drop_last()).push(
            Scored { key: recency_key(s.last()) as u128, cmd: s.last() },
        )
    }
}

/// Every command of `s`, paired with its usage key.
pub open spec fn usage_scored(s: Seq<Command>) -> Seq<Scored>
    decreases s.len(),
{
    if s.len() == 0 {
        Seq::empty()
    } else {
        usage_scored(s.drop_last()).push(
            Scored { key: usage_key(s.last()) as u128, cmd: s.last() },
        )
    }
}

/// The commands of `s` that match `query` at all, in their original order.
pub open spec fn fuzzy_matches(s: Seq<Command>, query: Seq<char>) -> Seq<Command>
    decreases s.len(),
{
    if s.len() == 0 {
        Seq::empty()
    } else {
        let rest = fuzzy_matches(s.drop_last(), query);
        if fuzzy_score(s.last().text@, query) > 0 {
            rest.push(s.last())
        } else {
            rest
        }
    }
}

/// Every command of `s`, paired with its fuzzy score against `query`.
pub open spec fn fuzzy_scored(s: Seq<Command>, query: Seq<char>) -> Seq<Scored>
    decreases s.len(),
{
    if s.len() == 0 {
        Seq::empty()
    } else {
        fuzzy_scored(s.drop_last(), query).push(
            Scored { key: fuzzy_score(s.last().text@, query) as u128, cmd: s.last() },
        )
    }
}

/// The commands of a scored sequence, keys dropped.
pub open spec fn strip(s: Seq<Scored>) -> Seq<Command>
    decreases s.len(),
{
    if s.len() == 0 {
        Seq::empty()
    } else {
        strip(s.drop_last()).push(s.last().cmd)
    }
}

/// The commands of `s` ordered by recency, most recently used first,
/// never-used commands after all used ones, ties in original order.
pub open spec fn recency_ranked(s: Seq<Command>) -> Seq<Command> {
    strip(sort_desc(recency_scored(s)))
}

/// The commands of `s` ordered by usage count, most used first, ties in
/// original order.
pub open spec fn usage_ranked(s: Seq<Command>) -> Seq<Command> {
    strip(sort_desc(usage_scored(s)))
}

/// The commands of `s` that match `query`, best score first, ties in
/// original order; commands with no match are excluded entirely.
pub open spec fn fuzzy_ranked(s: Seq<Command>, query: Seq<char>) -> Seq<Command> {
    strip(sort_desc(fuzzy_scored(fuzzy_matches(s, query), query)))
}

// Proof machinery for the sort.

proof fn lemma_insert_desc_elems(s: Seq<Scored>, x: Scored)
    ensures
        insert_desc(s, x).len() == s.len() + 1,
        forall|p: int|
            0 <= p < insert_desc(s, x).len() ==> (#[trigger] insert_desc(s, x)[p]) == x
                || s.contains(insert_desc(s, x)[p]),
    decreases s.len(),
{
    if s.len() == 0 {
    } else if s[0].key >= x.key {
        lemma_insert_desc_elems(s.drop_first(), x);
        assert forall|p: int| 0 <= p < insert_desc(s, x).len() implies (#[trigger] insert_desc(
            s,
            x,
        )[p]) == x || s.contains(insert_desc(s, x)[p]) by {
            let r = insert_desc(s, x);
            if p == 0 {
                assert(r[0] == s[0]);
                assert(s.contains(s[0]));
            } else {
                let t = insert_desc(s.drop_first(), x);
                assert(r[p] == t[p - 1]);
                if t[p - 1] == x {
                } else {
                    let q = choose|q: int| 0 <= q < s.drop_first().len() && s.drop_first()[q] == t[
                        p - 1
                    ];
                    assert(s[q + 1] == t[p - 1]);
                }
            }
        }
    } else {
        assert forall|p: int| 0 <= p < insert_desc(s, x).len() implies (#[trigger] insert_desc(
            s,
            x,
        )[p]) == x || s.contains(insert_desc(s, x)[p]) by {
            let r = insert_desc(s, x);
            if p > 0 {
                assert(r[p] == s[p - 1]);
            }
        }
    }
}

proof fn lemma_insert_desc_sorted(s: Seq<Scored>, x: Scored)
    requires
        sorted_desc(s),
    ensures
        sorted_desc(insert_desc(s, x)),
    decreases s.len(),
{
    lemma_insert_desc_elems(s, x);
    if s.len() == 0 {
    } else if s[0].key >= x.key {
        assert(sorted_desc(s.drop_first()));
        lemma_insert_desc_sorted(s.drop_first(), x);
        lemma_insert_desc_elems(s.drop_first(), x);
        let r = insert_desc(s, x);
        let t = insert_desc(s.drop_first(), x);
        assert forall|i: int, j: int| 0 <= i < j < r.len() implies r[i].key >= r[j].key by {
            if i == 0 {
                assert(r[j] == t[j - 1]);
                if t[j - 1] == x {
                } else {
                    let q = choose|q: int| 0 <= q < s.drop_first().len() && s.drop_first()[q] == t[
                        j - 1
                    ];
                    assert(s[q + 1] == t[j - 1]);
                }
            } else {
                assert(r[i] == t[i - 1] && r[j] == t[j - 1]);
            }
        }
    } else {
        let r = insert_desc(s, x);
        assert forall|i: int, j: int| 0 <= i < j < r.len() implies r[i].key >= r[j].key by {
            if i == 0 {
                assert(r[j] == s[j - 1]);
                if j > 1 {
                    assert(s[0].key >= s[j - 1].key);
                }
            } else {
                assert(r[i] == s[i - 1] && r[j] == s[j - 1]);
            }
        }
    }
}

proof fn lemma_insert_desc_multiset(s: Seq<Scored>, x: Scored)
    ensures
        insert_desc(s, x).to_multiset() == s.to_multiset().insert(x),
    decreases s.len(),
{
    broadcast use group_to_multiset_ensures;
    broadcast use vstd::seq_lib::to_multiset_insert;
    broadcast use vstd::multiset::group_multiset_axioms;

    if s.len() == 0 {
        assert(seq![x] =~= Seq::<Scored>::empty().push(x));
        assert(s.to_multiset() =~= Multiset::<Scored>::empty());
        assert(insert_desc(s, x).to_multiset() =~= s.to_multiset().insert(x));
    } else if s[0].key >= x.key {
        lemma_insert_desc_multiset(s.drop_first(), x);
        let t = insert_desc(s.drop_first(), x);
        assert(seq![s[0]] + t =~= t.insert(0, s[0]));
        assert(s =~= s.drop_first().insert(0, s[0]));
        assert(insert_desc(s, x).to_multiset() =~= s.to_multiset().insert(x));
    } else {
        assert(seq![x] + s =~= s.insert(0, x));
        assert(insert_desc(s, x).to_multiset() =~= s.to_multiset().insert(x));
    }
}

/// Law: the sort returns its input's elements exactly (as a multiset: nothing
/// is discarded, nothing invented), with keys non-increasing left to right.
pub proof fn lemma_sort_desc_properties(s: Seq<Scored>)
    ensures
        sorted_desc(sort_desc(s)),
        sort_desc(s).to_multiset() == s.to_multiset(),
        sort_desc(s).len() == s.len(),
    decreases s.len(),
{
    broadcast use group_to_multiset_ensures;

    if s.len() == 0 {
    } else {
        lemma_sort_desc_properties(s.drop_last());
        let t = sort_desc(s.drop_last());
        lemma_insert_desc_sorted(t, s.last());
        lemma_insert_desc_elems(t, s.last());
        lemma_insert_desc_multiset(t, s.last());
        assert(s =~= s.drop_last().push(s.last()));
        assert(s.drop_last().push(s.last()).to_multiset() =~= s.drop_last().to_multiset().insert(
            s.last(),
        ));
    }
}

/// Law: dropping the keys keeps length and order.
pub proof fn lemma_strip_index(s: Seq<Scored>)
    ensures
        strip(s).len() == s.len(),
        forall|p: int| 0 <= p < s.len() ==> strip(s)[p] == (#[trigger] s[p]).cmd,
    decreases s.len(),
{
    if s.len() > 0 {
        lemma_strip_index(s.drop_last());
        assert forall|p: int| 0 <= p < s.len() implies strip(s)[p] == (#[trigger] s[p]).cmd by {
            if p < s.len() - 1 {
                assert(strip(s)[p] == strip(s.drop_last())[p]);
                assert(s.drop_last()[p] == s[p]);
            } else {
                assert(strip(s)[p] == s.last().cmd);
            }
        }
    }
}

proof fn lemma_strip_remove(b: Seq<Scored>, idx: int)
    requires
        0 <= idx < b.len(),
    ensures
        strip(b.remove(idx)) == strip(b).remove(idx),
{
    lemma_strip_index(b);
    lemma_strip_index(b.remove(idx));
    b.remove_ensures(idx);
    strip(b).remove_ensures(idx);
    assert forall|p: int| 0 <= p < strip(b.remove(idx)).len() implies strip(b.remove(idx))[p]
        == strip(b).remove(idx)[p] by {
        if p < idx {
            assert(b.remove(idx)[p] == b[p]);
            assert(strip(b).remove(idx)[p] == strip(b)[p]);
        } else {
            assert(b.remove(idx)[p] == b[p + 1]);
            assert(strip(b).remove(idx)[p] == strip(b)[p + 1]);
        }
    }
    assert(strip(b.remove(idx)) =~= strip(b).remove(idx));
}

/// Sequences with the same elements (as a multiset) still have the same
/// elements once the keys are dropped.
proof fn lemma_strip_permutes(a: Seq<Scored>, b: Seq<Scored>)
    requires
        a.to_multiset() == b.to_multiset(),
    ensures
        strip(a).to_multiset() == strip(b).to_multiset(),
    decreases a.len(),
{
    broadcast use group_to_multiset_ensures;
    broadcast use vstd::multiset::group_multiset_axioms;

    if a.len() == 0 {
        assert(a.to_multiset().len() == a.len());
        assert(b.to_multiset().len() == b.len());
        assert(b.len() == 0);
    } else {
        let x = a.last();
        assert(a =~= a.drop_last().push(x));
        assert(a.to_multiset().count(x) > 0) by {
            assert(a.contains(x)) by {
                assert(a[a.len() - 1] == x);
            }
        }
        assert(b.contains(x));
        let idx = choose|idx: int| 0 <= idx < b.len() && b[idx] == x;
        assert(b.remove(idx).to_multiset() =~= a.drop_last().to_multiset()) by {
            assert(b.remove(idx).to_multiset() == b.to_multiset().remove(x));
            assert(a.to_multiset() == a.drop_last().to_multiset().insert(x));
        }
        lemma_strip_permutes(a.drop_last(), b.remove(idx));
        lemma_strip_remove(b, idx);
        lemma_strip_index(b);
        assert(strip(a) == strip(a.drop_last()).push(x.cmd));
        assert(strip(a).to_multiset() == strip(a.drop_last()).to_multiset().insert(x.cmd));
        assert(strip(b).remove(idx).to_multiset() == strip(b).to_multiset().remove(x.cmd)) by {
            assert(strip(b)[idx] == x.cmd);
        }
        assert(strip(b).to_multiset().count(x.cmd) > 0) by {
            assert(strip(b).contains(x.cmd)) by {
                assert(strip(b)[idx] == x.cmd);
            }
        }
        assert(strip(b).to_multiset() =~= strip(b).to_multiset().remove(x.cmd).insert(x.cmd));
    }
}

proof fn lemma_elements_from(t: Seq<Scored>, s: Seq<Scored>, p: int)
    requires
        t.to_multiset() == s.to_multiset(),
        0 <= p < t.len(),
    ensures
        exists|q: int| 0 <= q < s.len() && s[q] == t[p],
{
    broadcast use group_to_multiset_ensures;

    assert(t.contains(t[p])) by {
        assert(0 <= p < t.len() && t[p] == t[p]);
    }
    assert(t.to_multiset().count(t[p]) > 0);
    assert(s.to_multiset().count(t[p]) > 0);
    assert(s.contains(t[p]));
}

proof fn lemma_sorted_strip(scored: Seq<Scored>, kf: spec_fn(Command) -> int)
    requires
        forall|p: int| 0 <= p < scored.len() ==> (#[trigger] scored[p]).key as int == kf(
            scored[p].cmd,
        ),
    ensures
        strip(sort_desc(scored)).len() == scored.len(),
        forall|i: int, j: int|
            0 <= i < j < scored.len() ==> kf(#[trigger] strip(sort_desc(scored))[i]) >= kf(
                #[trigger] strip(sort_desc(scored))[j],
            ),
        forall|p: int|
            0 <= p < scored.len() ==> exists|q: int|
                0 <= q < scored.len() && (#[trigger] strip(sort_desc(scored))[p]) == scored[q].cmd,
{
    let t = sort_desc(scored);
    lemma_sort_desc_properties(scored);
    lemma_strip_index(t);
    assert forall|p: int| 0 <= p < scored.len() implies exists|q: int|
        0 <= q < scored.len() && (#[trigger] strip(t)[p]) == scored[q].cmd by {
        lemma_elements_from(t, scored, p);
        let q = choose|q: int| 0 <= q < scored.len() && scored[q] == t[p];
        assert(strip(t)[p] == scored[q].cmd);
    }
    assert forall|i: int, j: int| 0 <= i < j < scored.len() implies kf(
        #[trigger] strip(t)[i],
    ) >= kf(#[trigger] strip(t)[j]) by {
        lemma_elements_from(t, scored, i);
        lemma_elements_from(t, scored, j);
        assert(t[i].key >= t[j].key);
        assert(t[i].key as int == kf(t[i].cmd) && t[j].key as int == kf(t[j].cmd));
    }
}

proof fn lemma_recency_scored_facts(s: Seq<Command>)
    ensures
        recency_scored(s).len() == s.len(),
        forall|p: int|
            0 <= p < s.len() ==> (#[trigger] recency_scored(s)[p]) == (Scored {
                key: recency_key(s[p]) as u128,
                cmd: s[p],
            }),
    decreases s.len(),
{
    if s.len() > 0 {
        lemma_recency_scored_facts(s.drop_last());
    }
}

proof fn lemma_usage_scored_facts(s: Seq<Command>)
    ensures
        usage_scored(s).len() == s.len(),
        forall|p: int|
            0 <= p < s.len() ==> (#[trigger] usage_scored(s)[p]) == (Scored {
                key: usage_key(s[p]) as u128,
                cmd: s[p],
            }),
    decreases s.len(),
{
    if s.len() > 0 {
        lemma_usage_scored_facts(s.drop_last());
    }
}

/// Law: a fuzzy score is never negative and never exceeds the query length.
pub proof fn lemma_fuzzy_score_bounds(text: Seq<char>, query: Seq<char>)
    ensures
        0 <= fuzzy_score(text, query) <= query.len(),
    decreases text.len(),
{
    if text.len() == 0 || query.len() == 0 {
    } else if text[0] == query[0] {
        lemma_fuzzy_score_bounds(text.drop_first(), query.drop_first());
    } else {
        lemma_fuzzy_score_bounds(text.drop_first(), query);
    }
}

proof fn lemma_fuzzy_scored_facts(s: Seq<Command>, query: Seq<char>)
    ensures
        fuzzy_scored(s, query).len() == s.len(),
        forall|p: int|
            0 <= p < s.len() ==> (#[trigger] fuzzy_scored(s, query)[p]) == (Scored {
                key: fuzzy_score(s[p].text@, query) as u128,
                cmd: s[p],
            }),
    decreases s.len(),
{
    if s.len() > 0 {
        lemma_fuzzy_scored_facts(s.drop_last(), query);
    }
}

proof fn lemma_fuzzy_matches_positive(s: Seq<Command>, query: Seq<char>)
    ensures
        fuzzy_matches(s, query).len() <= s.len(),
        forall|p: int|
            0 <= p < fuzzy_matches(s, query).len() ==> fuzzy_score(
                (#[trigger] fuzzy_matches(s, query)[p]).text@,
                query,
            ) > 0 && s.contains(fuzzy_matches(s, query)[p]),
    decreases s.len(),
{
    if s.len() > 0 {
        lemma_fuzzy_matches_positive(s.drop_last(), query);
        let rest = fuzzy_matches(s.drop_last(), query);
        assert forall|p: int| 0 <= p < fuzzy_matches(s, query).len() implies fuzzy_score(
            (#[trigger] fuzzy_matches(s, query)[p]).text@,
            query,
        ) > 0 && s.contains(fuzzy_matches(s, query)[p]) by {
            if p < rest.len() {
                let q = choose|q: int| 0 <= q < s.drop_last().len() && s.drop_last()[q] == rest[p];
                assert(s[q] == rest[p]);
            } else {
                assert(fuzzy_matches(s, query)[p] == s.last());
                assert(s.contains(s.last()));
            }
        }
    }
}

// The three ranking laws, at the level of the ranked command sequences.

/// Law: the recency ordering is a permutation of its input: no command is
/// discarded, none invented.
pub proof fn lemma_recency_ranked_permutes(s: Seq<Command>)
    ensures
        recency_ranked(s).to_multiset() == s.to_multiset(),
{
    let scored = recency_scored(s);
    lemma_sort_desc_properties(scored);
    lemma_strip_permutes(sort_desc(scored), scored);
    lemma_recency_scored_facts(s);
    lemma_strip_index(scored);
    assert forall|p: int| 0 <= p < s.len() implies strip(scored)[p] == s[p] by {
        assert(scored[p] == (Scored { key: recency_key(s[p]) as u128, cmd: s[p] }));
    }
    assert(strip(scored) =~= s);
}

/// Law: the usage ordering is a permutation of its input.
pub proof fn lemma_usage_ranked_permutes(s: Seq<Command>)
    ensures
        usage_ranked(s).to_multiset() == s.to_multiset(),
{
    let scored = usage_scored(s);
    lemma_sort_desc_properties(scored);
    lemma_strip_permutes(sort_desc(scored), scored);
    lemma_usage_scored_facts(s);
    lemma_strip_index(scored);
    assert forall|p: int| 0 <= p < s.len() implies strip(scored)[p] == s[p] by {
        assert(scored[p] == (Scored { key: usage_key(s[p]) as u128, cmd: s[p] }));
    }
    assert(strip(scored) =~= s);
}

/// Law: the fuzzy ordering is a permutation of the matching commands: it
/// drops exactly the commands that do not match the query.
pub proof fn lemma_fuzzy_ranked_permutes(s: Seq<Command>, query: Seq<char>)
    ensures
        fuzzy_ranked(s, query).to_multiset() == fuzzy_matches(s, query).to_multiset(),
{
    let m = fuzzy_matches(s, query);
    let scored = fuzzy_scored(m, query);
    lemma_sort_desc_properties(scored);
    lemma_strip_permutes(sort_desc(scored), scored);
    lemma_fuzzy_scored_facts(m, query);
    lemma_strip_index(scored);
    assert forall|p: int| 0 <= p < m.len() implies strip(scored)[p] == m[p] by {
        assert(scored[p] == (Scored {
            key: fuzzy_score(m[p].text@, query) as u128,
            cmd: m[p],
        }));
    }
    assert(strip(scored) =~= m);
}

/// Law: the recency ordering keeps every command (same length) and is sorted
/// by recency key, most recent first; every result element is one of the
/// input commands.
pub proof fn lemma_recency_ranked_sorted(s: Seq<Command>)
    ensures
        recency_ranked(s).len() == s.len(),
        forall|i: int, j: int|
            0 <= i < j < s.len() ==> recency_key(#[trigger] recency_ranked(s)[i]) >= recency_key(
                #[trigger] recency_ranked(s)[j],
            ),
        forall|p: int|
            0 <= p < s.len() ==> s.contains(#[trigger] recency_ranked(s)[p]),
{
    lemma_recency_scored_facts(s);
    lemma_sorted_strip(recency_scored(s), |c: Command| recency_key(c));
    assert forall|p: int| 0 <= p < s.len() implies s.contains(
        #[trigger] recency_ranked(s)[p],
    ) by {
        let q = choose|q: int|
            0 <= q < recency_scored(s).len() && recency_ranked(s)[p] == recency_scored(s)[q].cmd;
        assert(recency_scored(s)[q].cmd == s[q]);
    }
}

/// Law: the usage ordering keeps every command and is sorted by usage count,
/// most used first; every result element is one of the input commands.
pub proof fn lemma_usage_ranked_sorted(s: Seq<Command>)
    ensures
        usage_ranked(s).len() == s.len(),
        forall|i: int, j: int|
            0 <= i < j < s.len() ==> usage_key(#[trigger] usage_ranked(s)[i]) >= usage_key(
                #[trigger] usage_ranked(s)[j],
            ),
        forall|p: int| 0 <= p < s.len() ==> s.contains(#[trigger] usage_ranked(s)[p]),
{
    lemma_usage_scored_facts(s);
    lemma_sorted_strip(usage_scored(s), |c: Command| usage_key(c));
    assert forall|p: int| 0 <= p < s.len() implies s.contains(#[trigger] usage_ranked(s)[p]) by {
        let q = choose|q: int|
            0 <= q < usage_scored(s).len() && usage_ranked(s)[p] == usage_scored(s)[q].cmd;
        assert(usage_scored(s)[q].cmd == s[q]);
    }
}

/// Law: a command with no recorded use sorts after every command with one,
/// whatever the others' timestamps: once a never-used command appears in the
/// recency ordering, everything after it is never-used too.
pub proof fn lemma_never_used_sorts_last(s: Seq<Command>, i: int, j: int)
    requires
        0 <= i < j < recency_ranked(s).len(),
        never_used(recency_ranked(s)[i]),
    ensures
        never_used(recency_ranked(s)[j]),
{
    lemma_recency_ranked_sorted(s);
    assert(recency_key(recency_ranked(s)[i]) >= recency_key(recency_ranked(s)[j]));
    lemma_recency_key_nonneg(recency_ranked(s)[j]);
}

proof fn lemma_recency_key_nonneg(c: Command)
    ensures
        recency_key(c) >= 0,
{
}

/// Law: three commands last used at strictly increasing timestamps come out
/// of the recency ordering most recent first.
pub proof fn lemma_recency_ranked_three(
    c1: Command,
    c2: Command,
    c3: Command,
    t1: u64,
    t2: u64,
    t3: u64,
)
    requires
        t1 < t2 < t3,
        c1.meta matches Some(m1) && m1.last_used == Some(t1),
        c2.meta matches Some(m2) && m2.last_used == Some(t2),
        c3.meta matches Some(m3) && m3.last_used == Some(t3),
    ensures
        recency_ranked(seq![c1, c2, c3]) == seq![c3, c2, c1],
{
    let s = seq![c1, c2, c3];
    let s1 = Scored { key: recency_key(c1) as u128, cmd: c1 };
    let s2 = Scored { key: recency_key(c2) as u128, cmd: c2 };
    let s3 = Scored { key: recency_key(c3) as u128, cmd: c3 };
    assert(s1.key < s2.key < s3.key);
    assert(s.drop_last() =~= seq![c1, c2]);
    assert(seq![c1, c2].drop_last() =~= seq![c1]);
    assert(seq![c1].drop_last() =~= Seq::<Command>::empty());
    assert(recency_scored(Seq::<Command>::empty()) =~= Seq::<Scored>::empty());
    assert(recency_scored(seq![c1]) =~= seq![s1]);
    assert(recency_scored(seq![c1, c2]) =~= seq![s1, s2]);
    assert(recency_scored(s) =~= seq![s1, s2, s3]);
    assert(seq![s1, s2, s3].drop_last() =~= seq![s1, s2]);
    assert(seq![s1, s2].drop_last() =~= seq![s1]);
    assert(seq![s1].drop_last() =~= Seq::<Scored>::empty());
    assert(sort_desc(Seq::<Scored>::empty()) =~= Seq::<Scored>::empty());
    assert(insert_desc(Seq::<Scored>::empty(), s1) =~= seq![s1]);
    assert(sort_desc(seq![s1]) =~= seq![s1]);
    assert(insert_desc(seq![s1], s2) =~= seq![s2] + seq![s1]);
    assert(seq![s2] + seq![s1] =~= seq![s2, s1]);
    assert(sort_desc(seq![s1, s2]) =~= seq![s2, s1]);
    assert(insert_desc(seq![s2, s1], s3) =~= seq![s3] + seq![s2, s1]);
    assert(seq![s3] + seq![s2, s1] =~= seq![s3, s2, s1]);
    assert(sort_desc(seq![s1, s2, s3]) =~= seq![s3, s2, s1]);
    lemma_strip_index(seq![s3, s2, s1]);
    assert(strip(seq![s3, s2, s1]) =~= seq![c3, c2, c1]);
    assert(recency_ranked(s) =~= seq![c3, c2, c1]);
}

/// Law: the fuzzy ordering returns matching commands only, sorted by score,
/// best first; every result element is an input command that matches.
pub proof fn lemma_fuzzy_ranked_matches(s: Seq<Command>, query: Seq<char>)
    requires
        query.len() <= usize::MAX,
    ensures
        fuzzy_ranked(s, query).len() == fuzzy_matches(s, query).len(),
        forall|p: int|
            0 <= p < fuzzy_ranked(s, query).len() ==> fuzzy_score(
                (#[trigger] fuzzy_ranked(s, query)[p]).text@,
                query,
            ) > 0 && s.contains(fuzzy_ranked(s, query)[p]),
        forall|i: int, j: int|
            0 <= i < j < fuzzy_ranked(s, query).len() ==> fuzzy_score(
                (#[trigger] fuzzy_ranked(s, query)[i]).text@,
                query,
            ) >= fuzzy_score((#[trigger] fuzzy_ranked(s, query)[j]).text@, query),
{
    let m = fuzzy_matches(s, query);
    lemma_fuzzy_matches_positive(s, query);
    lemma_fuzzy_scored_facts(m, query);
    assert forall|p: int| 0 <= p < fuzzy_scored(m, query).len() implies (#[trigger] fuzzy_scored(
        m,
        query,
    )[p]).key as int == fuzzy_score(fuzzy_scored(m, query)[p].cmd.text@, query) by {
        assert(fuzzy_scored(m, query)[p] == (Scored {
            key: fuzzy_score(m[p].text@, query) as u128,
            cmd: m[p],
        }));
        lemma_fuzzy_score_bounds(m[p].text@, query);
    }
    lemma_sorted_strip(fuzzy_scored(m, query), |c: Command| fuzzy_score(c.text@, query));
    assert forall|p: int| 0 <= p < fuzzy_ranked(s, query).len() implies fuzzy_score(
        (#[trigger] fuzzy_ranked(s, query)[p]).text@,
        query,
    ) > 0 && s.contains(fuzzy_ranked(s, query)[p]) by {
        let q = choose|q: int|
            0 <= q < fuzzy_scored(m, query).len() && fuzzy_ranked(s, query)[p] == fuzzy_scored(
                m,
                query,
            )[q].cmd;
        assert(fuzzy_scored(m, query)[q].cmd == m[q]);
    }
}

// Executable side.

/// Copy of a command, equal to the original.
fn clone_command(c: &Command) -> (r: Command)
    ensures
        r == *c,
{
    Command { text: c.text.clone(), meta: c.meta }
}

fn recency_score(c: &Command) -> (k: u128)
    ensures
        k as int == recency_key(*c),
{
    match &c.meta {
        Some(m) => match m.last_used {
            Some(t) => t as u128 + 1,
            None => 0,
        },
        None => 0,
    }
}

fn usage_score(c: &Command) -> (k: u128)
    ensures
        k as int == usage_key(*c),
{
    match &c.meta {
        Some(m) => m.usage_count as u128,
        None => 0,
    }
}

/// Greedy subsequence score of `text` against `query`, the executable side
/// of `fuzzy_score`.
pub fn fuzzy_score_of(text: &str, query: &str) -> (k: usize)
    ensures
        k as int == fuzzy_score(text@, query@),
{
    let n = text.unicode_len();
    let qn = query.unicode_len();
    let mut ti: usize = 0;
    let mut qi: usize = 0;
    let mut matched: usize = 0;
    proof {
        assert(text@.skip(0) =~= text@);
        assert(query@.skip(0) =~= query@);
    }
    while ti < n && qi < qn
        invariant
            n == text@.len(),
            qn == query@.len(),
            ti <= n,
            qi <= qn,
            matched == qi,
            fuzzy_score(text@, query@) == matched + fuzzy_score(
                text@.skip(ti as int),
                query@.skip(qi as int),
            ),
        decreases n - ti,
    {
        let tc = text.get_char(ti);
        let qc = query.get_char(qi);
        proof {
            assert(text@.skip(ti as int)[0] == text@[ti as int]);
            assert(query@.skip(qi as int)[0] == query@[qi as int]);
            assert(text@.skip(ti as int).drop_first() =~= text@.skip(ti as int + 1));
        }
        if tc == qc {
            proof {
                assert(query@.skip(qi as int).drop_first() =~= query@.skip(qi as int + 1));
            }
            matched = matched + 1;
            qi = qi + 1;
        }
        ti = ti + 1;
    }
    proof {
        assert(fuzzy_score(text@.skip(ti as int), query@.skip(qi as int)) == 0);
    }
    matched
}

fn sort_scored_desc(input: Vec<Scored>) -> (r: Vec<Scored>)
    ensures
        r@ == sort_desc(input@),
{
    let ghost orig = input@;
    let mut rest = input;
    proof {
        assert(orig.len() <= usize::MAX) by {
            vstd::std_specs::vec::axiom_spec_len(&rest);
        }
    }
    let mut out: Vec<Scored> = Vec::new();
    let mut i: usize = 0;
    while rest.len() > 0
        invariant
            orig.len() <= usize::MAX,
            i + rest@.len() == orig.len(),
            rest@ == orig.skip(i as int),
            out@ == sort_desc(orig.take(i as int)),
        decreases rest@.len(),
    {
        let x = rest.remove(0);
        proof {
            assert(orig.skip(i as int).remove(0) =~= orig.skip(i as int + 1));
            assert(x == orig[i as int]);
        }
        let mut j: usize = 0;
        while j < out.len() && out[j].key >= x.key
            invariant
                j <= out@.len(),
                forall|p: int| 0 <= p < j ==> (#[trigger] out@[p]).key >= x.key,
            decreases out@.len() - j,
        {
            j = j + 1;
        }
        proof {
            lemma_insert_desc_at(out@, x, j as int);
            assert(orig.take(i as int + 1).drop_last() =~= orig.take(i as int));
            assert(orig.take(i as int + 1).last() == orig[i as int]);
        }
        out.insert(j, x);
        i = i + 1;
    }
    proof {
        assert(orig.take(orig.len() as int) =~= orig);
    }
    out
}

proof fn lemma_insert_desc_at(s: Seq<Scored>, x: Scored, j: int)
    requires
        0 <= j <= s.len(),
        forall|p: int| 0 <= p < j ==> (#[trigger] s[p]).key >= x.key,
        j < s.len() ==> s[j].key < x.key,
    ensures
        insert_desc(s, x) == s.insert(j, x),
    decreases j,
{
    if j == 0 {
        if s.len() == 0 {
            assert(insert_desc(s, x) =~= s.insert(0, x));
        } else {
            assert(insert_desc(s, x) =~= s.insert(0, x));
        }
    } else {
        lemma_insert_desc_at(s.drop_first(), x, j - 1);
        assert(seq![s[0]] + s.drop_first().insert(j - 1, x) =~= s.insert(j, x));
    }
}

fn strip_scored(input: Vec<Scored>) -> (r: Vec<Command>)
    ensures
        r@ == strip(input@),
{
    let ghost orig = input@;
    let mut rest = input;
    proof {
        assert(orig.len() <= usize::MAX) by {
            vstd::std_specs::vec::axiom_spec_len(&rest);
        }
    }
    let mut out: Vec<Command> = Vec::new();
    let mut i: usize = 0;
    while rest.len() > 0
        invariant
            orig.len() <= usize::MAX,
            i + rest@.len() == orig.len(),
            rest@ == orig.skip(i as int),
            out@ == strip(orig.take(i as int)),
        decreases rest@.len(),
    {
        let x = rest.remove(0);
        proof {
            assert(orig.skip(i as int).remove(0) =~= orig.skip(i as int + 1));
            assert(x == orig[i as int]);
            assert(orig.take(i as int + 1).drop_last() =~= orig.take(i as int));
            assert(orig.take(i as int + 1).last() == orig[i as int]);
        }
        out.push(x.cmd);
        i = i + 1;
    }
    proof {
        assert(orig.take(orig.len() as int) =~= orig);
    }
    out
}

/// Recency ordering: a new command list sorted by `last_used` descending,
/// commands with no recorded use after all commands with one, ties in the
/// original order. Never mutates the input or any cursor.
pub fn rank_by_recency(commands: &Vec<Command>) -> (r: Vec<Command>)
    ensures
        r@ == recency_ranked(commands@),
{
    let mut scored: Vec<Scored> = Vec::new();
    let mut i: usize = 0;
    while i < commands.len()
        invariant
            i <= commands@.len(),
            scored@ == recency_scored(commands@.take(i as int)),
        decreases commands@.len() - i,
    {
        let c = clone_command(&commands[i]);
        let k = recency_score(&c);
        proof {
            assert(commands@.take(i as int + 1).drop_last() =~= commands@.take(i as int));
            assert(commands@.take(i as int + 1).last() == commands@[i as int]);
        }
        scored.push(Scored { key: k, cmd: c });
        i = i + 1;
    }
    proof {
        assert(commands@.take(commands@.len() as int) =~= commands@);
    }
    strip_scored(sort_scored_desc(scored))
}

/// Usage ordering: a new command list sorted by `usage_count` descending,
/// ties in the original order. Never mutates the input or any cursor.
pub fn rank_by_usage(commands: &Vec<Command>) -> (r: Vec<Command>)
    ensures
        r@ == usage_ranked(commands@),
{
    let mut scored: Vec<Scored> = Vec::new();
    let mut i: usize = 0;
    while i < commands.len()
        invariant
            i <= commands@.len(),
            scored@ == usage_scored(commands@.take(i as int)),
        decreases commands@.len() - i,
    {
        let c = clone_command(&commands[i]);
        let k = usage_score(&c);
        proof {
            assert(commands@.take(i as int + 1).drop_last() =~= commands@.take(i as int));
            assert(commands@.take(i as int + 1).last() == commands@[i as int]);
        }
        scored.push(Scored { key: k, cmd: c });
        i = i + 1;
    }
    proof {
        assert(commands@.take(commands@.len() as int) =~= commands@);
    }
    strip_scored(sort_scored_desc(scored))
}

/// Fuzzy search: every command scored against the query; commands with no
/// match are excluded entirely, the rest returned by descending score, ties
/// in the original order. Never mutates the input or any cursor.
pub fn fuzzy_search(commands: &Vec<Command>, query: &str) -> (r: Vec<Command>)
    ensures
        r@ == fuzzy_ranked(commands@, query@),
{
    let mut scored: Vec<Scored> = Vec::new();
    let mut i: usize = 0;
    while i < commands.len()
        invariant
            i <= commands@.len(),
            scored@ == fuzzy_scored(
                fuzzy_matches(commands@.take(i as int), query@),
                query@,
            ),
        decreases commands@.len() - i,
    {
        let k = fuzzy_score_of(commands[i].text.as_str(), query);
        proof {
            assert(commands@.take(i as int + 1).drop_last() =~= commands@.take(i as int));
            assert(commands@.take(i as int + 1).last() == commands@[i as int]);
        }
        if k > 0 {
            let c = clone_command(&commands[i]);
            proof {
                let m0 = fuzzy_matches(commands@.take(i as int), query@);
                let m1 = fuzzy_matches(commands@.take(i as int + 1), query@);
                assert(m1 == m0.push(commands@[i as int]));
                assert(m1.drop_last() =~= m0);
                assert(m1.last() == commands@[i as int]);
            }
            scored.push(Scored { key: k as u128, cmd: c });
        }
        i = i + 1;
    }
    proof {
        assert(commands@.take(commands@.len() as int) =~= commands@);
    }
    strip_scored(sort_scored_desc(scored))
}

} // verus!
