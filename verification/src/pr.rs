//! Personal-record aggregation: group a user's set rows by exercise name,
//! rank each group under the combined ordering (heavier first, then more
//! repetitions), drop repeated performances, and keep the top three.

use vstd::prelude::*;

use crate::exercise::ExerciseSetBodyweightQuery;
use crate::exercise::ExerciseSetWeightedQuery;
use crate::exercise::PRBodyweightQuery;
use crate::exercise::PRQuery;
use crate::exercise::PRWeightedQuery;
use crate::group::group_names;
use crate::group::groups_view;
use crate::group::insert_entry;
use crate::group::lemma_insert_entry_names;
use crate::group::lemma_insert_entry_sorted;
use crate::group::names_strictly_sorted;
use crate::group::spec_insert_entry;
use crate::order::dedup_adjacent;
use crate::order::is_strict_total_order;
use crate::order::lemma_dedup_adjacent_push;
use crate::order::lemma_dedup_adjacent_contains;
use crate::order::lemma_dedup_adjacent_strictly_sorted;
use crate::order::lemma_insert_before_at;
use crate::order::lemma_sort_by_before_contains;
use crate::order::lemma_sort_by_before_sorted;
use crate::order::lemma_strictly_sorted_no_duplicates;
use crate::order::sort_by_before;
use crate::order::strictly_sorted_by;

verus! {

/// The combined weighted ranking: a heavier load ranks first; at equal load,
/// more repetitions rank first.
pub open spec fn pair_before(a: (u64, i32), b: (u64, i32)) -> bool {
    a.0 > b.0 || (a.0 == b.0 && a.1 > b.1)
}

/// The weighted ranking as a relation value, so every use names one term.
pub open spec fn pair_ord() -> spec_fn((u64, i32), (u64, i32)) -> bool {
    |a: (u64, i32), b: (u64, i32)| pair_before(a, b)
}

/// The bodyweight ranking: more repetitions rank first.
pub open spec fn reps_before(a: i32, b: i32) -> bool {
    a > b
}

pub open spec fn reps_ord() -> spec_fn(i32, i32) -> bool {
    |a: i32, b: i32| reps_before(a, b)
}

pub proof fn lemma_pair_ord_strict_total()
    ensures
        is_strict_total_order(pair_ord()),
{
}

pub proof fn lemma_reps_ord_strict_total()
    ensures
        is_strict_total_order(reps_ord()),
{
}

fn pair_ranks_before(a: (u64, i32), b: (u64, i32)) -> (r: bool)
    ensures
        r == pair_before(a, b),
{
    a.0 > b.0 || (a.0 == b.0 && a.1 > b.1)
}

/// Stable insertion sort of (weight key, reps) pairs, best first.
fn sort_pairs(v: &Vec<(u64, i32)>) -> (r: Vec<(u64, i32)>)
    ensures
        r@ == sort_by_before(v@, pair_ord()),
{
    let mut out: Vec<(u64, i32)> = Vec::new();
    let mut i: usize = 0;
    proof {
        assert(v@.take(0) =~= Seq::<(u64, i32)>::empty());
    }
    while i < v.len()
        invariant
            i <= v.len(),
            out@ == sort_by_before(v@.take(i as int), pair_ord()),
        decreases v.len() - i,
    {
        let x = v[i];
        let mut j: usize = 0;
        while j < out.len() && !pair_ranks_before(x, out[j])
            invariant
                j <= out.len(),
                forall|k: int| 0 <= k < j ==> !pair_before(x, #[trigger] out@[k]),
            decreases out.len() - j,
        {
            j = j + 1;
        }
        proof {
            assert(forall|k: int| 0 <= k < j ==> !(pair_ord()(x, #[trigger] out@[k])));
            assert(j < out@.len() ==> pair_ord()(x, out@[j as int]));
            lemma_insert_before_at(out@, x, pair_ord(), j as int);
            assert(v@.take(i + 1).drop_last() =~= v@.take(i as int));
            assert(v@.take(i + 1).last() == v@[i as int]);
        }
        out.insert(j, x);
        i = i + 1;
    }
    proof {
        assert(v@.take(v@.len() as int) =~= v@);
    }
    out
}

/// Stable insertion sort of repetition counts, highest first.
fn sort_reps(v: &Vec<i32>) -> (r: Vec<i32>)
    ensures
        r@ == sort_by_before(v@, reps_ord()),
{
    let mut out: Vec<i32> = Vec::new();
    let mut i: usize = 0;
    proof {
        assert(v@.take(0) =~= Seq::<i32>::empty());
    }
    while i < v.len()
        invariant
            i <= v.len(),
            out@ == sort_by_before(v@.take(i as int), reps_ord()),
        decreases v.len() - i,
    {
        let x = v[i];
        let mut j: usize = 0;
        while j < out.len() && !(x > out[j])
            invariant
                j <= out.len(),
                forall|k: int| 0 <= k < j ==> !reps_before(x, #[trigger] out@[k]),
            decreases out.len() - j,
        {
            j = j + 1;
        }
        proof {
            assert(forall|k: int| 0 <= k < j ==> !(reps_ord()(x, #[trigger] out@[k])));
            assert(j < out@.len() ==> reps_ord()(x, out@[j as int]));
            lemma_insert_before_at(out@, x, reps_ord(), j as int);
            assert(v@.take(i + 1).drop_last() =~= v@.take(i as int));
            assert(v@.take(i + 1).last() == v@[i as int]);
        }
        out.insert(j, x);
        i = i + 1;
    }
    proof {
        assert(v@.take(v@.len() as int) =~= v@);
    }
    out
}

/// The tail element of each run of equal values is the sequence's tail
/// element, which lets the executable loops compare against the last kept
/// value instead of the last seen one.
proof fn lemma_dedup_adjacent_last<A>(s: Seq<A>)
    requires
        s.len() > 0,
    ensures
        dedup_adjacent(s).len() > 0,
        dedup_adjacent(s).last() == s.last(),
    decreases s.len(),
{
    if s.len() > 1 {
        lemma_dedup_adjacent_last(s.drop_first());
        assert(s.drop_first().last() == s.last());
        if s[0] != s[1] {
            let t = dedup_adjacent(s.drop_first());
            assert((seq![s[0]] + t).last() == t.last());
        }
    }
}

/// Drop each pair that repeats its predecessor in an already sorted list.
fn dedup_pairs(v: &Vec<(u64, i32)>) -> (r: Vec<(u64, i32)>)
    ensures
        r@ == dedup_adjacent(v@),
{
    let mut out: Vec<(u64, i32)> = Vec::new();
    let mut i: usize = 0;
    proof {
        assert(v@.take(0) =~= Seq::<(u64, i32)>::empty());
    }
    while i < v.len()
        invariant
            i <= v.len(),
            out@ == dedup_adjacent(v@.take(i as int)),
        decreases v.len() - i,
    {
        let x = v[i];
        proof {
            lemma_dedup_adjacent_push(v@.take(i as int), x);
            assert(v@.take(i + 1) =~= v@.take(i as int).push(x));
            if i > 0 {
                lemma_dedup_adjacent_last(v@.take(i as int));
                assert(v@.take(i as int).last() == v@[i - 1]);
            }
        }
        if out.len() == 0 {
            out.push(x);
        } else {
            let last = out[out.len() - 1];
            if last.0 != x.0 || last.1 != x.1 {
                out.push(x);
            }
        }
        i = i + 1;
    }
    proof {
        assert(v@.take(v@.len() as int) =~= v@);
    }
    out
}

/// Drop each count that repeats its predecessor in an already sorted list.
fn dedup_reps(v: &Vec<i32>) -> (r: Vec<i32>)
    ensures
        r@ == dedup_adjacent(v@),
{
    let mut out: Vec<i32> = Vec::new();
    let mut i: usize = 0;
    proof {
        assert(v@.take(0) =~= Seq::<i32>::empty());
    }
    while i < v.len()
        invariant
            i <= v.len(),
            out@ == dedup_adjacent(v@.take(i as int)),
        decreases v.len() - i,
    {
        let x = v[i];
        proof {
            lemma_dedup_adjacent_push(v@.take(i as int), x);
            assert(v@.take(i + 1) =~= v@.take(i as int).push(x));
            if i > 0 {
                lemma_dedup_adjacent_last(v@.take(i as int));
                assert(v@.take(i as int).last() == v@[i - 1]);
            }
        }
        if out.len() == 0 {
            out.push(x);
        } else {
            let last = out[out.len() - 1];
            if last != x {
                out.push(x);
            }
        }
        i = i + 1;
    }
    proof {
        assert(v@.take(v@.len() as int) =~= v@);
    }
    out
}

/// At most the first `n` elements of a sequence.
pub open spec fn take_at_most<A>(s: Seq<A>, n: int) -> Seq<A> {
    if s.len() <= n {
        s
    } else {
        s.take(n)
    }
}

/// Group weighted rows by exercise name, in row order; groups stay
/// alphabetical and each group's (weight key, reps) pairs keep row order.
pub open spec fn spec_group_weighted(rows: Seq<ExerciseSetWeightedQuery>) -> Seq<
    (Seq<char>, Seq<(u64, i32)>),
>
    decreases rows.len(),
{
    if rows.len() == 0 {
        Seq::empty()
    } else {
        spec_insert_entry(
            spec_group_weighted(rows.drop_last()),
            rows.last().name@,
            (rows.last().weight, rows.last().reps),
        )
    }
}

/// Group bodyweight rows by exercise name, keeping repetition counts.
pub open spec fn spec_group_bodyweight(rows: Seq<ExerciseSetBodyweightQuery>) -> Seq<
    (Seq<char>, Seq<i32>),
>
    decreases rows.len(),
{
    if rows.len() == 0 {
        Seq::empty()
    } else {
        spec_insert_entry(
            spec_group_bodyweight(rows.drop_last()),
            rows.last().name@,
            rows.last().reps,
        )
    }
}

/// One exercise's weighted record list: rank the pairs best first, drop
/// repeated performances, keep at most three.
pub open spec fn spec_pr_pairs(entries: Seq<(u64, i32)>) -> Seq<(u64, i32)> {
    take_at_most(dedup_adjacent(sort_by_before(entries, pair_ord())), 3)
}

/// One exercise's bodyweight record list.
pub open spec fn spec_pr_reps(entries: Seq<i32>) -> Seq<i32> {
    take_at_most(dedup_adjacent(sort_by_before(entries, reps_ord())), 3)
}

/// Reduce one weighted group to its record list, keeping its name.
pub open spec fn weighted_group_records(g: (Seq<char>, Seq<(u64, i32)>)) -> (
    Seq<char>,
    Seq<(u64, i32)>,
) {
    (g.0, spec_pr_pairs(g.1))
}

/// The weighted reduction as a function value, so every use names one term.
pub open spec fn weighted_records_fn() -> spec_fn((Seq<char>, Seq<(u64, i32)>)) -> (
    Seq<char>,
    Seq<(u64, i32)>,
) {
    |g: (Seq<char>, Seq<(u64, i32)>)| weighted_group_records(g)
}

/// Reduce one bodyweight group to its record list, keeping its name.
pub open spec fn bodyweight_group_records(g: (Seq<char>, Seq<i32>)) -> (Seq<char>, Seq<i32>) {
    (g.0, spec_pr_reps(g.1))
}

/// The bodyweight reduction as a function value.
pub open spec fn bodyweight_records_fn() -> spec_fn((Seq<char>, Seq<i32>)) -> (
    Seq<char>,
    Seq<i32>,
) {
    |g: (Seq<char>, Seq<i32>)| bodyweight_group_records(g)
}

/// The mathematical content of a weighted personal-record response.
pub open spec fn prw_view(r: Seq<PRWeightedQuery>) -> Seq<(Seq<char>, Seq<(u64, i32)>)> {
    r.map_values(|p: PRWeightedQuery| (p.name@, p.pr@))
}

/// The mathematical content of a bodyweight personal-record response.
pub open spec fn prb_view(r: Seq<PRBodyweightQuery>) -> Seq<(Seq<char>, Seq<i32>)> {
    r.map_values(|p: PRBodyweightQuery| (p.name@, p.pr@))
}

/// The weighted personal records of a row set: the groups, each reduced to
/// its record list.
pub open spec fn spec_weighted_prs(rows: Seq<ExerciseSetWeightedQuery>) -> Seq<
    (Seq<char>, Seq<(u64, i32)>),
> {
    spec_group_weighted(rows).map_values(weighted_records_fn())
}

/// The bodyweight personal records of a row set.
pub open spec fn spec_bodyweight_prs(rows: Seq<ExerciseSetBodyweightQuery>) -> Seq<
    (Seq<char>, Seq<i32>),
> {
    spec_group_bodyweight(rows).map_values(bodyweight_records_fn())
}

/// Compute the top-3 weighted personal records per exercise name for the
/// given rows of one user, alphabetically by name.
pub fn get_weighted_exercise_set_prs_for_user(rows: Vec<ExerciseSetWeightedQuery>) -> (r: Vec<
    PRWeightedQuery,
>)
    ensures
        prw_view(r@) == spec_weighted_prs(rows@),
{
    let ghost orig = rows@;
    let mut rows = rows;
    let mut groups: Vec<(String, Vec<(u64, i32)>)> = Vec::new();
    proof {
        assert(orig.take(0) =~= Seq::<ExerciseSetWeightedQuery>::empty());
        assert(groups_view(groups@) =~~= spec_group_weighted(orig.take(0)));
        assert(rows@ =~= orig.skip(0));
    }
    while rows.len() > 0
        invariant
            rows@.len() <= orig.len(),
            rows@ == orig.skip(orig.len() - rows@.len()),
            groups_view(groups@) == spec_group_weighted(orig.take(orig.len() - rows@.len())),
        decreases rows@.len(),
    {
        let ghost j = orig.len() - rows@.len();
        let row = rows.remove(0);
        proof {
            assert(row == orig.skip(j as int)[0]);
            assert(row == orig[j as int]);
            assert(rows@ =~= orig.skip(j + 1));
        }
        let ExerciseSetWeightedQuery { name, reps, weight, .. } = row;
        insert_entry(&mut groups, name, (weight, reps));
        proof {
            assert(orig.take(j + 1).drop_last() =~= orig.take(j as int));
            assert(orig.take(j + 1).last() == orig[j as int]);
        }
    }
    proof {
        assert(orig.take(orig.len() as int) =~= orig);
    }
    let mut groups = groups;
    let ghost gs = groups_view(groups@);
    let mut out: Vec<PRWeightedQuery> = Vec::new();
    proof {
        assert(gs.take(0) =~= Seq::<(Seq<char>, Seq<(u64, i32)>)>::empty());
        assert(prw_view(out@) =~~= gs.take(0).map_values(weighted_records_fn()));
        assert(groups_view(groups@) =~~= gs.skip(0));
    }
    while groups.len() > 0
        invariant
            groups@.len() <= gs.len(),
            groups_view(groups@) == gs.skip(gs.len() - groups@.len()),
            prw_view(out@) == gs.take(gs.len() - groups@.len()).map_values(
                weighted_records_fn(),
            ),
        decreases groups@.len(),
    {
        let ghost k = gs.len() - groups@.len();
        let ghost pre = groups@;
        let (nm, es) = groups.remove(0);
        proof {
            assert((nm, es) == pre[0]);
            assert(groups_view(pre)[0] == (pre[0].0@, pre[0].1@));
            assert((nm@, es@) == gs.skip(k as int)[0]);
            assert((nm@, es@) == gs[k as int]);
            assert(groups_view(groups@) =~~= gs.skip(k + 1)) by {
                assert forall|i: int| 0 <= i < groups@.len() implies groups_view(groups@)[i]
                    == gs.skip(k + 1)[i] by {
                    assert(groups@[i] == pre[i + 1]);
                    assert(groups_view(groups@)[i] == (groups@[i].0@, groups@[i].1@));
                    assert(groups_view(pre)[i + 1] == (pre[i + 1].0@, pre[i + 1].1@));
                    assert(groups_view(pre)[i + 1] == gs.skip(k as int)[i + 1]);
                    assert(gs.skip(k as int)[i + 1] == gs[k + 1 + i]);
                    assert(gs.skip(k + 1)[i] == gs[k + 1 + i]);
                }
            }
        }
        let sorted = sort_pairs(&es);
        let mut d = dedup_pairs(&sorted);
        if d.len() > 3 {
            d.truncate(3);
        }
        proof {
            assert(d@ == spec_pr_pairs(es@));
        }
        let ghost nmv = nm@;
        let ghost dv = d@;
        let ghost pre_out = out@;
        proof {
            assert(prw_view(pre_out) == gs.take(k as int).map_values(weighted_records_fn()));
            assert(prw_view(pre_out).len() == pre_out.len());
            assert(gs.take(k as int).len() == k);
            assert(gs.take(k as int).map_values(weighted_records_fn()).len() == k);
            assert(pre_out.len() == k);
        }
        out.push(PRWeightedQuery { name: nm, pr: d });
        proof {
            let f = weighted_records_fn();
            assert(prw_view(out@) =~~= gs.take(k + 1).map_values(f)) by {
                assert(out@.len() == k + 1);
                assert forall|i: int| 0 <= i <= k implies prw_view(out@)[i] == gs.take(
                    k + 1,
                ).map_values(f)[i] by {
                    assert(gs.take(k + 1).map_values(f)[i] == f(gs.take(k + 1)[i]));
                    assert(gs.take(k + 1)[i] == gs[i]);
                    assert(prw_view(out@)[i] == (out@[i].name@, out@[i].pr@));
                    if i < k {
                        assert(out@[i] == pre_out[i]);
                        assert(prw_view(pre_out)[i] == (pre_out[i].name@, pre_out[i].pr@));
                        assert(prw_view(pre_out)[i] == gs.take(k as int).map_values(f)[i]);
                        assert(gs.take(k as int).map_values(f)[i] == f(gs.take(k as int)[i]));
                        assert(gs.take(k as int)[i] == gs[i]);
                    } else {
                        assert(out@[i].name@ == nmv && out@[i].pr@ == dv);
                        assert(gs[k as int] == (nmv, es@));
                        assert(f(gs[k as int]) == weighted_group_records(gs[k as int]));
                        assert(f(gs[k as int]) == (nmv, spec_pr_pairs(es@)));
                    }
                }
            }
        }
    }
    proof {
        assert(gs.take(gs.len() as int) =~= gs);
    }
    out
}

/// Compute the top-3 bodyweight personal records per exercise name for the
/// given rows of one user, alphabetically by name.
pub fn get_bodyweight_exercise_set_prs_for_user(rows: Vec<ExerciseSetBodyweightQuery>) -> (r: Vec<
    PRBodyweightQuery,
>)
    ensures
        prb_view(r@) == spec_bodyweight_prs(rows@),
{
    let ghost orig = rows@;
    let mut rows = rows;
    let mut groups: Vec<(String, Vec<i32>)> = Vec::new();
    proof {
        assert(orig.take(0) =~= Seq::<ExerciseSetBodyweightQuery>::empty());
        assert(groups_view(groups@) =~~= spec_group_bodyweight(orig.take(0)));
        assert(rows@ =~= orig.skip(0));
    }
    while rows.len() > 0
        invariant
            rows@.len() <= orig.len(),
            rows@ == orig.skip(orig.len() - rows@.len()),
            groups_view(groups@) == spec_group_bodyweight(orig.take(orig.len() - rows@.len())),
        decreases rows@.len(),
    {
        let ghost j = orig.len() - rows@.len();
        let row = rows.remove(0);
        proof {
            assert(row == orig.skip(j as int)[0]);
            assert(row == orig[j as int]);
            assert(rows@ =~= orig.skip(j + 1));
        }
        let ExerciseSetBodyweightQuery { name, reps, .. } = row;
        insert_entry(&mut groups, name, reps);
        proof {
            assert(orig.take(j + 1).drop_last() =~= orig.take(j as int));
            assert(orig.take(j + 1).last() == orig[j as int]);
        }
    }
    proof {
        assert(orig.take(orig.len() as int) =~= orig);
    }
    let mut groups = groups;
    let ghost gs = groups_view(groups@);
    let mut out: Vec<PRBodyweightQuery> = Vec::new();
    proof {
        assert(gs.take(0) =~= Seq::<(Seq<char>, Seq<i32>)>::empty());
        assert(prb_view(out@) =~~= gs.take(0).map_values(bodyweight_records_fn()));
        assert(groups_view(groups@) =~~= gs.skip(0));
    }
    while groups.len() > 0
        invariant
            groups@.len() <= gs.len(),
            groups_view(groups@) == gs.skip(gs.len() - groups@.len()),
            prb_view(out@) == gs.take(gs.len() - groups@.len()).map_values(
                bodyweight_records_fn(),
            ),
        decreases groups@.len(),
    {
        let ghost k = gs.len() - groups@.len();
        let ghost pre = groups@;
        let (nm, es) = groups.remove(0);
        proof {
            assert((nm, es) == pre[0]);
            assert(groups_view(pre)[0] == (pre[0].0@, pre[0].1@));
            assert((nm@, es@) == gs.skip(k as int)[0]);
            assert((nm@, es@) == gs[k as int]);
            assert(groups_view(groups@) =~~= gs.skip(k + 1)) by {
                assert forall|i: int| 0 <= i < groups@.len() implies groups_view(groups@)[i]
                    == gs.skip(k + 1)[i] by {
                    assert(groups@[i] == pre[i + 1]);
                    assert(groups_view(groups@)[i] == (groups@[i].0@, groups@[i].1@));
                    assert(groups_view(pre)[i + 1] == (pre[i + 1].0@, pre[i + 1].1@));
                    assert(groups_view(pre)[i + 1] == gs.skip(k as int)[i + 1]);
                    assert(gs.skip(k as int)[i + 1] == gs[k + 1 + i]);
                    assert(gs.skip(k + 1)[i] == gs[k + 1 + i]);
                }
            }
        }
        let sorted = sort_reps(&es);
        let mut d = dedup_reps(&sorted);
        if d.len() > 3 {
            d.truncate(3);
        }
        proof {
            assert(d@ == spec_pr_reps(es@));
        }
        let ghost nmv = nm@;
        let ghost dv = d@;
        let ghost pre_out = out@;
        proof {
            assert(prb_view(pre_out) == gs.take(k as int).map_values(bodyweight_records_fn()));
            assert(prb_view(pre_out).len() == pre_out.len());
            assert(gs.take(k as int).len() == k);
            assert(gs.take(k as int).map_values(bodyweight_records_fn()).len() == k);
            assert(pre_out.len() == k);
        }
        out.push(PRBodyweightQuery { name: nm, pr: d });
        proof {
            let f = bodyweight_records_fn();
            assert(prb_view(out@) =~~= gs.take(k + 1).map_values(f)) by {
                assert(out@.len() == k + 1);
                assert forall|i: int| 0 <= i <= k implies prb_view(out@)[i] == gs.take(
                    k + 1,
                ).map_values(f)[i] by {
                    assert(gs.take(k + 1).map_values(f)[i] == f(gs.take(k + 1)[i]));
                    assert(gs.take(k + 1)[i] == gs[i]);
                    assert(prb_view(out@)[i] == (out@[i].name@, out@[i].pr@));
                    if i < k {
                        assert(out@[i] == pre_out[i]);
                        assert(prb_view(pre_out)[i] == (pre_out[i].name@, pre_out[i].pr@));
                        assert(prb_view(pre_out)[i] == gs.take(k as int).map_values(f)[i]);
                        assert(gs.take(k as int).map_values(f)[i] == f(gs.take(k as int)[i]));
                        assert(gs.take(k as int)[i] == gs[i]);
                    } else {
                        assert(out@[i].name@ == nmv && out@[i].pr@ == dv);
                        assert(gs[k as int] == (nmv, es@));
                        assert(f(gs[k as int]) == bodyweight_group_records(gs[k as int]));
                        assert(f(gs[k as int]) == (nmv, spec_pr_reps(es@)));
                    }
                }
            }
        }
    }
    proof {
        assert(gs.take(gs.len() as int) =~= gs);
    }
    out
}

/// The combined personal-record response for one user: weighted and
/// bodyweight records side by side.
pub fn get_exercise_set_prs_for_user(
    weighted_rows: Vec<ExerciseSetWeightedQuery>,
    bodyweight_rows: Vec<ExerciseSetBodyweightQuery>,
) -> (r: PRQuery)
    ensures
        prw_view(r.weighted@) == spec_weighted_prs(weighted_rows@),
        prb_view(r.bodyweight@) == spec_bodyweight_prs(bodyweight_rows@),
{
    let weighted = get_weighted_exercise_set_prs_for_user(weighted_rows);
    let bodyweight = get_bodyweight_exercise_set_prs_for_user(bodyweight_rows);
    PRQuery { weighted, bodyweight }
}

/// Prefixes keep strict sortedness.
proof fn lemma_take_at_most_strictly_sorted<A>(s: Seq<A>, n: int, before: spec_fn(A, A) -> bool)
    requires
        0 <= n,
        strictly_sorted_by(s, before),
    ensures
        strictly_sorted_by(take_at_most(s, n), before),
{
    let r = take_at_most(s, n);
    assert forall|i: int, j: int| 0 <= i < j < r.len() implies before(r[i], r[j]) by {
        assert(r[i] == s[i] && r[j] == s[j]);
    }
}

/// Ordering invariant: a weighted record list is strictly decreasing under
/// the combined ranking, so it is sorted by weight descending with reps
/// descending as tie-break, and no (weight, reps) pair appears twice.
pub proof fn lemma_pr_pairs_ordered(entries: Seq<(u64, i32)>)
    ensures
        strictly_sorted_by(spec_pr_pairs(entries), pair_ord()),
        spec_pr_pairs(entries).no_duplicates(),
{
    lemma_pair_ord_strict_total();
    let s = sort_by_before(entries, pair_ord());
    lemma_sort_by_before_sorted(entries, pair_ord());
    lemma_dedup_adjacent_strictly_sorted(s, pair_ord());
    lemma_take_at_most_strictly_sorted(dedup_adjacent(s), 3, pair_ord());
    lemma_strictly_sorted_no_duplicates(spec_pr_pairs(entries), pair_ord());
}

/// The bodyweight counterpart of [`lemma_pr_pairs_ordered`].
pub proof fn lemma_pr_reps_ordered(entries: Seq<i32>)
    ensures
        strictly_sorted_by(spec_pr_reps(entries), reps_ord()),
        spec_pr_reps(entries).no_duplicates(),
{
    lemma_reps_ord_strict_total();
    let s = sort_by_before(entries, reps_ord());
    lemma_sort_by_before_sorted(entries, reps_ord());
    lemma_dedup_adjacent_strictly_sorted(s, reps_ord());
    lemma_take_at_most_strictly_sorted(dedup_adjacent(s), 3, reps_ord());
    lemma_strictly_sorted_no_duplicates(spec_pr_reps(entries), reps_ord());
}

/// Every record list of a weighted response is ordered and duplicate-free.
pub proof fn lemma_weighted_prs_ordering(rows: Seq<ExerciseSetWeightedQuery>)
    ensures
        forall|i: int|
            0 <= i < spec_weighted_prs(rows).len() ==> strictly_sorted_by(
                #[trigger] spec_weighted_prs(rows)[i].1,
                pair_ord(),
            ) && spec_weighted_prs(rows)[i].1.no_duplicates(),
{
    let gs = spec_group_weighted(rows);
    let ws = spec_weighted_prs(rows);
    assert forall|i: int| 0 <= i < ws.len() implies strictly_sorted_by(
        #[trigger] ws[i].1,
        pair_ord(),
    ) && ws[i].1.no_duplicates() by {
        assert(ws[i] == weighted_records_fn()(gs[i]));
        assert(ws[i].1 == spec_pr_pairs(gs[i].1));
        lemma_pr_pairs_ordered(gs[i].1);
    }
}

/// Every record list of a bodyweight response is ordered and duplicate-free.
pub proof fn lemma_bodyweight_prs_ordering(rows: Seq<ExerciseSetBodyweightQuery>)
    ensures
        forall|i: int|
            0 <= i < spec_bodyweight_prs(rows).len() ==> strictly_sorted_by(
                #[trigger] spec_bodyweight_prs(rows)[i].1,
                reps_ord(),
            ) && spec_bodyweight_prs(rows)[i].1.no_duplicates(),
{
    let gs = spec_group_bodyweight(rows);
    let ws = spec_bodyweight_prs(rows);
    assert forall|i: int| 0 <= i < ws.len() implies strictly_sorted_by(
        #[trigger] ws[i].1,
        reps_ord(),
    ) && ws[i].1.no_duplicates() by {
        assert(ws[i] == bodyweight_records_fn()(gs[i]));
        assert(ws[i].1 == spec_pr_reps(gs[i].1));
        lemma_pr_reps_ordered(gs[i].1);
    }
}

/// Cardinality bound: a record list holds at most three entries, and exactly
/// the number of distinct performances when fewer than three exist.
pub proof fn lemma_pr_pairs_cardinality(entries: Seq<(u64, i32)>)
    ensures
        spec_pr_pairs(entries).len() <= 3,
        entries.to_set().len() >= 3 ==> spec_pr_pairs(entries).len() == 3,
        entries.to_set().len() < 3 ==> spec_pr_pairs(entries).len() == entries.to_set().len(),
{
    broadcast use vstd::set::group_set_axioms;

    lemma_pair_ord_strict_total();
    let s = sort_by_before(entries, pair_ord());
    lemma_sort_by_before_sorted(entries, pair_ord());
    lemma_sort_by_before_contains(entries, pair_ord());
    let d = dedup_adjacent(s);
    lemma_dedup_adjacent_contains(s);
    lemma_dedup_adjacent_strictly_sorted(s, pair_ord());
    lemma_strictly_sorted_no_duplicates(d, pair_ord());
    assert(d.to_set() =~= entries.to_set()) by {
        assert(forall|y: (u64, i32)| #[trigger] d.contains(y) <==> entries.contains(y));
    }
    d.unique_seq_to_set();
}

/// The bodyweight counterpart of [`lemma_pr_pairs_cardinality`].
pub proof fn lemma_pr_reps_cardinality(entries: Seq<i32>)
    ensures
        spec_pr_reps(entries).len() <= 3,
        entries.to_set().len() >= 3 ==> spec_pr_reps(entries).len() == 3,
        entries.to_set().len() < 3 ==> spec_pr_reps(entries).len() == entries.to_set().len(),
{
    broadcast use vstd::set::group_set_axioms;

    lemma_reps_ord_strict_total();
    let s = sort_by_before(entries, reps_ord());
    lemma_sort_by_before_sorted(entries, reps_ord());
    lemma_sort_by_before_contains(entries, reps_ord());
    let d = dedup_adjacent(s);
    lemma_dedup_adjacent_contains(s);
    lemma_dedup_adjacent_strictly_sorted(s, reps_ord());
    lemma_strictly_sorted_no_duplicates(d, reps_ord());
    assert(d.to_set() =~= entries.to_set()) by {
        assert(forall|y: i32| #[trigger] d.contains(y) <==> entries.contains(y));
    }
    d.unique_seq_to_set();
}

/// Every record list of a weighted response obeys the cardinality bound:
/// at most three entries, and exactly the group's distinct performances when
/// fewer than three exist.
pub proof fn lemma_weighted_prs_cardinality(rows: Seq<ExerciseSetWeightedQuery>)
    ensures
        forall|i: int|
            0 <= i < spec_weighted_prs(rows).len() ==> (#[trigger] spec_weighted_prs(
                rows,
            )[i]).1.len() <= 3,
        forall|i: int|
            0 <= i < spec_weighted_prs(rows).len() && spec_group_weighted(
                rows,
            )[i].1.to_set().len() < 3 ==> (#[trigger] spec_weighted_prs(rows)[i]).1.len()
                == spec_group_weighted(rows)[i].1.to_set().len(),
{
    let gs = spec_group_weighted(rows);
    let ws = spec_weighted_prs(rows);
    assert forall|i: int| 0 <= i < ws.len() implies (#[trigger] ws[i]).1.len() <= 3 && (
    gs[i].1.to_set().len() < 3 ==> ws[i].1.len() == gs[i].1.to_set().len()) by {
        assert(ws[i] == weighted_records_fn()(gs[i]));
        assert(ws[i].1 == spec_pr_pairs(gs[i].1));
        lemma_pr_pairs_cardinality(gs[i].1);
    }
}

/// The bodyweight counterpart of [`lemma_weighted_prs_cardinality`].
pub proof fn lemma_bodyweight_prs_cardinality(rows: Seq<ExerciseSetBodyweightQuery>)
    ensures
        forall|i: int|
            0 <= i < spec_bodyweight_prs(rows).len() ==> (#[trigger] spec_bodyweight_prs(
                rows,
            )[i]).1.len() <= 3,
        forall|i: int|
            0 <= i < spec_bodyweight_prs(rows).len() && spec_group_bodyweight(
                rows,
            )[i].1.to_set().len() < 3 ==> (#[trigger] spec_bodyweight_prs(rows)[i]).1.len()
                == spec_group_bodyweight(rows)[i].1.to_set().len(),
{
    let gs = spec_group_bodyweight(rows);
    let ws = spec_bodyweight_prs(rows);
    assert forall|i: int| 0 <= i < ws.len() implies (#[trigger] ws[i]).1.len() <= 3 && (
    gs[i].1.to_set().len() < 3 ==> ws[i].1.len() == gs[i].1.to_set().len()) by {
        assert(ws[i] == bodyweight_records_fn()(gs[i]));
        assert(ws[i].1 == spec_pr_reps(gs[i].1));
        lemma_pr_reps_cardinality(gs[i].1);
    }
}

/// Determinism: each aggregation's contract pins its result to a function of
/// the input rows alone, so any two results computed from the same rows are
/// equal, whatever order the equal-ranked rows arrived in memory.
pub proof fn lemma_aggregation_deterministic(
    rows: Seq<ExerciseSetWeightedQuery>,
    r1: Seq<PRWeightedQuery>,
    r2: Seq<PRWeightedQuery>,
)
    requires
        prw_view(r1) == spec_weighted_prs(rows),
        prw_view(r2) == spec_weighted_prs(rows),
    ensures
        prw_view(r1) == prw_view(r2),
{
}

/// The exercise names of weighted rows, in row order.
pub open spec fn row_names_weighted(rows: Seq<ExerciseSetWeightedQuery>) -> Seq<Seq<char>> {
    rows.map_values(|r: ExerciseSetWeightedQuery| r.name@)
}

/// The exercise names of bodyweight rows, in row order.
pub open spec fn row_names_bodyweight(rows: Seq<ExerciseSetBodyweightQuery>) -> Seq<Seq<char>> {
    rows.map_values(|r: ExerciseSetBodyweightQuery| r.name@)
}

proof fn lemma_group_weighted_names(rows: Seq<ExerciseSetWeightedQuery>)
    ensures
        names_strictly_sorted(spec_group_weighted(rows)),
        forall|n: Seq<char>|
            #[trigger] group_names(spec_group_weighted(rows)).contains(n) <==> row_names_weighted(
                rows,
            ).contains(n),
    decreases rows.len(),
{
    if rows.len() == 0 {
        assert forall|n: Seq<char>|
            !(#[trigger] group_names(spec_group_weighted(rows)).contains(n)) by {
            assert(group_names(spec_group_weighted(rows)).len() == 0);
        }
        assert forall|n: Seq<char>| !(row_names_weighted(rows).contains(n)) by {
            assert(row_names_weighted(rows).len() == 0);
        }
    } else {
        lemma_group_weighted_names(rows.drop_last());
        let prev = spec_group_weighted(rows.drop_last());
        let last = rows.last();
        lemma_insert_entry_sorted(prev, last.name@, (last.weight, last.reps));
        lemma_insert_entry_names(prev, last.name@, (last.weight, last.reps));
        assert forall|n: Seq<char>| #[trigger] row_names_weighted(rows).contains(n) implies
            row_names_weighted(rows.drop_last()).contains(n) || n == last.name@ by {
            let i = choose|i: int|
                0 <= i < row_names_weighted(rows).len() && row_names_weighted(rows)[i] == n;
            if i < rows.len() - 1 {
                assert(rows.drop_last()[i] == rows[i]);
                assert(row_names_weighted(rows.drop_last())[i] == n);
            }
        }
        assert forall|n: Seq<char>|
            row_names_weighted(rows.drop_last()).contains(n) || n == last.name@ implies #[trigger]
            row_names_weighted(rows).contains(n) by {
            if n == last.name@ {
                assert(row_names_weighted(rows)[rows.len() - 1] == n);
            } else {
                let i = choose|i: int|
                    0 <= i < row_names_weighted(rows.drop_last()).len() && row_names_weighted(
                        rows.drop_last(),
                    )[i] == n;
                assert(rows.drop_last()[i] == rows[i]);
                assert(row_names_weighted(rows)[i] == n);
            }
        }
    }
}

proof fn lemma_group_bodyweight_names(rows: Seq<ExerciseSetBodyweightQuery>)
    ensures
        names_strictly_sorted(spec_group_bodyweight(rows)),
        forall|n: Seq<char>|
            #[trigger] group_names(spec_group_bodyweight(rows)).contains(n)
                <==> row_names_bodyweight(rows).contains(n),
    decreases rows.len(),
{
    if rows.len() == 0 {
        assert forall|n: Seq<char>|
            !(#[trigger] group_names(spec_group_bodyweight(rows)).contains(n)) by {
            assert(group_names(spec_group_bodyweight(rows)).len() == 0);
        }
        assert forall|n: Seq<char>| !(row_names_bodyweight(rows).contains(n)) by {
            assert(row_names_bodyweight(rows).len() == 0);
        }
    } else {
        lemma_group_bodyweight_names(rows.drop_last());
        let prev = spec_group_bodyweight(rows.drop_last());
        let last = rows.last();
        lemma_insert_entry_sorted(prev, last.name@, last.reps);
        lemma_insert_entry_names(prev, last.name@, last.reps);
        assert forall|n: Seq<char>| #[trigger] row_names_bodyweight(rows).contains(n) implies
            row_names_bodyweight(rows.drop_last()).contains(n) || n == last.name@ by {
            let i = choose|i: int|
                0 <= i < row_names_bodyweight(rows).len() && row_names_bodyweight(rows)[i] == n;
            if i < rows.len() - 1 {
                assert(rows.drop_last()[i] == rows[i]);
                assert(row_names_bodyweight(rows.drop_last())[i] == n);
            }
        }
        assert forall|n: Seq<char>|
            row_names_bodyweight(rows.drop_last()).contains(n) || n == last.name@ implies
            #[trigger] row_names_bodyweight(rows).contains(n) by {
            if n == last.name@ {
                assert(row_names_bodyweight(rows)[rows.len() - 1] == n);
            } else {
                let i = choose|i: int|
                    0 <= i < row_names_bodyweight(rows.drop_last()).len() && row_names_bodyweight(
                        rows.drop_last(),
                    )[i] == n;
                assert(rows.drop_last()[i] == rows[i]);
                assert(row_names_bodyweight(rows)[i] == n);
            }
        }
    }
}

/// Grouping completeness: a name heads an entry of the weighted response
/// exactly when some input row bears it, and no name heads two entries.
pub proof fn lemma_grouping_completeness_weighted(rows: Seq<ExerciseSetWeightedQuery>)
    ensures
        forall|n: Seq<char>|
            #[trigger] group_names(spec_weighted_prs(rows)).contains(n) <==> row_names_weighted(
                rows,
            ).contains(n),
        group_names(spec_weighted_prs(rows)).no_duplicates(),
{
    lemma_group_weighted_names(rows);
    let gs = spec_group_weighted(rows);
    let ws = spec_weighted_prs(rows);
    assert(group_names(ws) =~= group_names(gs)) by {
        assert forall|i: int| 0 <= i < ws.len() implies group_names(ws)[i] == group_names(gs)[i]
            by {
            assert(ws[i] == weighted_records_fn()(gs[i]));
        }
    }
    crate::strings::lemma_lex_ord_strict();
    assert(strictly_sorted_by(group_names(gs), crate::strings::lex_ord())) by {
        assert forall|i: int, j: int| 0 <= i < j < group_names(gs).len() implies crate::strings::lex_ord()(
            group_names(gs)[i],
            group_names(gs)[j],
        ) by {
            assert(group_names(gs)[i] == gs[i].0 && group_names(gs)[j] == gs[j].0);
        }
    }
    lemma_strictly_sorted_no_duplicates(group_names(gs), crate::strings::lex_ord());
}

/// The bodyweight counterpart of [`lemma_grouping_completeness_weighted`].
pub proof fn lemma_grouping_completeness_bodyweight(rows: Seq<ExerciseSetBodyweightQuery>)
    ensures
        forall|n: Seq<char>|
            #[trigger] group_names(spec_bodyweight_prs(rows)).contains(n)
                <==> row_names_bodyweight(rows).contains(n),
        group_names(spec_bodyweight_prs(rows)).no_duplicates(),
{
    lemma_group_bodyweight_names(rows);
    let gs = spec_group_bodyweight(rows);
    let ws = spec_bodyweight_prs(rows);
    assert(group_names(ws) =~= group_names(gs)) by {
        assert forall|i: int| 0 <= i < ws.len() implies group_names(ws)[i] == group_names(gs)[i]
            by {
            assert(ws[i] == bodyweight_records_fn()(gs[i]));
        }
    }
    crate::strings::lemma_lex_ord_strict();
    assert(strictly_sorted_by(group_names(gs), crate::strings::lex_ord())) by {
        assert forall|i: int, j: int| 0 <= i < j < group_names(gs).len() implies crate::strings::lex_ord()(
            group_names(gs)[i],
            group_names(gs)[j],
        ) by {
            assert(group_names(gs)[i] == gs[i].0 && group_names(gs)[j] == gs[j].0);
        }
    }
    lemma_strictly_sorted_no_duplicates(group_names(gs), crate::strings::lex_ord());
}

} // verus!
