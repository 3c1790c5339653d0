//! The per-exercise progress view: every weighted set of a user, grouped by
//! exercise name and, within each exercise, by the calendar day it was
//! performed on. Names come out alphabetically, days in ascending order, and
//! a day's (weight key, reps) pairs keep row order.

use vstd::prelude::*;

use crate::group::groups_view;
use crate::group::insert_entry;
use crate::group::spec_insert_entry;

verus! {

/// One joined row feeding the progress view.
#[derive(Debug)]
pub struct ExerciseGraphJoinQuery {
    pub name: String,
    pub reps: i32,
    pub weight: u64,
    pub created_at: i64,
}

/// One day's sets of one exercise, in row order.
#[derive(Debug)]
pub struct ExerciseGraphQueryPerDate {
    pub date: i64,
    pub weights: Vec<(u64, i32)>,
}

/// One exercise's whole history, day by day.
#[derive(Debug)]
pub struct ExerciseGraphQuery {
    pub name: String,
    pub per_date: Vec<ExerciseGraphQueryPerDate>,
}

/// The calendar day (as days since the epoch) a timestamp in seconds falls
/// on: the floor of its division by the seconds of a day.
pub open spec fn day_of_timestamp(ts: i64) -> i64 {
    if ts >= 0 {
        (ts as int / 86400) as i64
    } else {
        (-1 - ((-(ts as int) - 1) / 86400)) as i64
    }
}

/// Both branches of `day_of_timestamp` compute the floor of the division.
pub proof fn lemma_day_is_floor(ts: i64)
    ensures
        day_of_timestamp(ts) as int == ts as int / 86400,
{
    if ts < 0 {
        let a = ts as int;
        let d = 86400int;
        let q = a / d;
        let r = a % d;
        vstd::arithmetic::div_mod::lemma_fundamental_div_mod(a, d);
        vstd::arithmetic::div_mod::lemma_mod_bound(a, d);
        assert(-a - 1 == (-q - 1) * d + (d - r - 1)) by (nonlinear_arith)
            requires
                a == d * q + r,
        ;
        vstd::arithmetic::div_mod::lemma_fundamental_div_mod_converse(-a - 1, d, -q - 1, d - r - 1);
    }
}

/// The calendar day of a timestamp.
pub fn day_of(ts: i64) -> (r: i64)
    ensures
        r == day_of_timestamp(ts),
{
    if ts >= 0 {
        let q: u64 = (ts as u64) / 86400;
        q as i64
    } else {
        let pos: i64 = -(ts + 1);
        let q: u64 = (pos as u64) / 86400;
        -((q as i64) + 1)
    }
}

/// File payload `e` under day `key`: append it to that day's group, or open
/// a new group at the day's chronological position.
pub open spec fn spec_insert_dated<T>(gs: Seq<(i64, Seq<T>)>, key: i64, e: T) -> Seq<(i64, Seq<T>)>
    decreases gs.len(),
{
    if gs.len() == 0 {
        seq![(key, seq![e])]
    } else if gs[0].0 == key {
        seq![(gs[0].0, gs[0].1.push(e))] + gs.drop_first()
    } else if key < gs[0].0 {
        seq![(key, seq![e])] + gs
    } else {
        seq![gs[0]] + spec_insert_dated(gs.drop_first(), key, e)
    }
}

/// Characterise `spec_insert_dated` by the position the executable scan
/// stops at: the first group whose day is not below the new day.
proof fn lemma_insert_dated_at<T>(gs: Seq<(i64, Seq<T>)>, key: i64, e: T, pos: int)
    requires
        0 <= pos <= gs.len(),
        forall|k: int| 0 <= k < pos ==> (#[trigger] gs[k]).0 < key,
        pos < gs.len() ==> gs[pos].0 >= key,
    ensures
        spec_insert_dated(gs, key, e) == if pos < gs.len() && gs[pos].0 == key {
            gs.update(pos, (gs[pos].0, gs[pos].1.push(e)))
        } else {
            gs.insert(pos, (key, seq![e]))
        },
    decreases gs.len(),
{
    if gs.len() == 0 {
        assert(spec_insert_dated(gs, key, e) =~~= gs.insert(0, (key, seq![e])));
    } else if gs[0].0 == key {
        assert(pos == 0);
        assert(seq![(gs[0].0, gs[0].1.push(e))] + gs.drop_first() =~~= gs.update(
            0,
            (gs[0].0, gs[0].1.push(e)),
        ));
    } else if key < gs[0].0 {
        assert(pos == 0);
        assert(seq![(key, seq![e])] + gs =~~= gs.insert(0, (key, seq![e])));
    } else {
        assert(pos >= 1);
        assert forall|k: int| 0 <= k < pos - 1 implies (#[trigger] gs.drop_first()[k]).0 < key by {
            assert(gs.drop_first()[k] == gs[k + 1]);
        }
        lemma_insert_dated_at(gs.drop_first(), key, e, pos - 1);
        if pos < gs.len() && gs[pos].0 == key {
            assert(gs.drop_first()[pos - 1] == gs[pos]);
            assert(seq![gs[0]] + gs.drop_first().update(pos - 1, (gs[pos].0, gs[pos].1.push(e)))
                =~~= gs.update(pos, (gs[pos].0, gs[pos].1.push(e))));
        } else {
            assert(seq![gs[0]] + gs.drop_first().insert(pos - 1, (key, seq![e])) =~~= gs.insert(
                pos,
                (key, seq![e]),
            ));
        }
    }
}

/// The mathematical content of an in-progress day grouping.
pub open spec fn dated_view<T>(g: Seq<(i64, Vec<T>)>) -> Seq<(i64, Seq<T>)> {
    g.map_values(|p: (i64, Vec<T>)| (p.0, p.1@))
}

/// File one payload under its day in the running day list.
fn insert_dated<T>(groups: &mut Vec<(i64, Vec<T>)>, key: i64, e: T)
    ensures
        dated_view(final(groups)@) == spec_insert_dated(dated_view(old(groups)@), key, e),
{
    let ghost gv = dated_view(old(groups)@);
    let mut j: usize = 0;
    while j < groups.len() && groups[j].0 < key
        invariant
            j <= groups.len(),
            groups@ == old(groups)@,
            forall|k: int| 0 <= k < j ==> (#[trigger] dated_view(groups@)[k]).0 < key,
        decreases groups.len() - j,
    {
        proof {
            assert(dated_view(groups@)[j as int].0 == groups@[j as int].0);
        }
        j = j + 1;
    }
    proof {
        assert(j < groups@.len() ==> gv[j as int].0 >= key) by {
            if j < groups@.len() {
                assert(dated_view(groups@)[j as int].0 == groups@[j as int].0);
            }
        }
        lemma_insert_dated_at(gv, key, e, j as int);
    }
    if j < groups.len() && groups[j].0 == key {
        let (day, mut es) = groups.remove(j);
        es.push(e);
        groups.insert(j, (day, es));
        proof {
            assert(dated_view(groups@) =~~= gv.update(
                j as int,
                (gv[j as int].0, gv[j as int].1.push(e)),
            ));
        }
    } else {
        let mut es: Vec<T> = Vec::new();
        es.push(e);
        groups.insert(j, (key, es));
        proof {
            assert(es@ =~= seq![e]);
            assert(dated_view(groups@) =~~= gv.insert(j as int, (key, seq![e])));
        }
    }
}

/// The day and measurements a row contributes.
pub open spec fn spec_graph_entry(r: ExerciseGraphJoinQuery) -> (i64, (u64, i32)) {
    (day_of_timestamp(r.created_at), (r.weight, r.reps))
}

/// Group rows by exercise name, in row order; each group's entries carry the
/// day they were performed on.
pub open spec fn spec_group_graph(rows: Seq<ExerciseGraphJoinQuery>) -> Seq<
    (Seq<char>, Seq<(i64, (u64, i32))>),
>
    decreases rows.len(),
{
    if rows.len() == 0 {
        Seq::empty()
    } else {
        spec_insert_entry(
            spec_group_graph(rows.drop_last()),
            rows.last().name@,
            spec_graph_entry(rows.last()),
        )
    }
}

/// Group one exercise's entries by day, chronologically.
pub open spec fn spec_group_dates(entries: Seq<(i64, (u64, i32))>) -> Seq<(i64, Seq<(u64, i32)>)>
    decreases entries.len(),
{
    if entries.len() == 0 {
        Seq::empty()
    } else {
        spec_insert_dated(
            spec_group_dates(entries.drop_last()),
            entries.last().0,
            entries.last().1,
        )
    }
}

/// The mathematical content of one exercise's day-by-day history.
pub open spec fn per_date_view(p: Seq<ExerciseGraphQueryPerDate>) -> Seq<(i64, Seq<(u64, i32)>)> {
    p.map_values(|d: ExerciseGraphQueryPerDate| (d.date, d.weights@))
}

/// The mathematical content of the whole progress response.
pub open spec fn graph_view(r: Seq<ExerciseGraphQuery>) -> Seq<
    (Seq<char>, Seq<(i64, Seq<(u64, i32)>)>),
> {
    r.map_values(|g: ExerciseGraphQuery| (g.name@, per_date_view(g.per_date@)))
}

/// Reduce one name group to its day-by-day history.
pub open spec fn graph_group_days(g: (Seq<char>, Seq<(i64, (u64, i32))>)) -> (
    Seq<char>,
    Seq<(i64, Seq<(u64, i32)>)>,
) {
    (g.0, spec_group_dates(g.1))
}

/// The reduction as a function value, so every use names one term.
pub open spec fn graph_days_fn() -> spec_fn((Seq<char>, Seq<(i64, (u64, i32))>)) -> (
    Seq<char>,
    Seq<(i64, Seq<(u64, i32)>)>,
) {
    |g: (Seq<char>, Seq<(i64, (u64, i32))>)| graph_group_days(g)
}

/// The progress view of a row set: the name groups, each split by day.
pub open spec fn spec_exercise_graphs(rows: Seq<ExerciseGraphJoinQuery>) -> Seq<
    (Seq<char>, Seq<(i64, Seq<(u64, i32)>)>),
> {
    spec_group_graph(rows).map_values(graph_days_fn())
}

/// Group one exercise's entries by day.
fn group_dates(entries: &Vec<(i64, (u64, i32))>) -> (r: Vec<(i64, Vec<(u64, i32)>)>)
    ensures
        dated_view(r@) == spec_group_dates(entries@),
{
    let mut groups: Vec<(i64, Vec<(u64, i32)>)> = Vec::new();
    let mut i: usize = 0;
    proof {
        assert(entries@.take(0) =~= Seq::<(i64, (u64, i32))>::empty());
        assert(dated_view(groups@) =~~= spec_group_dates(entries@.take(0)));
    }
    while i < entries.len()
        invariant
            i <= entries.len(),
            dated_view(groups@) == spec_group_dates(entries@.take(i as int)),
        decreases entries.len() - i,
    {
        let (day, pair) = entries[i];
        insert_dated(&mut groups, day, pair);
        proof {
            assert(entries@.take(i + 1).drop_last() =~= entries@.take(i as int));
            assert(entries@.take(i + 1).last() == entries@[i as int]);
        }
        i = i + 1;
    }
    proof {
        assert(entries@.take(entries@.len() as int) =~= entries@);
    }
    groups
}

/// The progress view: one entry per exercise name, alphabetically, each
/// listing its days in ascending order with that day's sets in row order.
pub fn get_exercise_graphs(rows: Vec<ExerciseGraphJoinQuery>) -> (r: Vec<ExerciseGraphQuery>)
    ensures
        graph_view(r@) == spec_exercise_graphs(rows@),
{
    let ghost orig = rows@;
    let mut rows = rows;
    let mut groups: Vec<(String, Vec<(i64, (u64, i32))>)> = Vec::new();
    proof {
        assert(orig.take(0) =~= Seq::<ExerciseGraphJoinQuery>::empty());
        assert(groups_view(groups@) =~~= spec_group_graph(orig.take(0)));
        assert(rows@ =~= orig.skip(0));
    }
    while rows.len() > 0
        invariant
            rows@.len() <= orig.len(),
            rows@ == orig.skip(orig.len() - rows@.len()),
            groups_view(groups@) == spec_group_graph(orig.take(orig.len() - rows@.len())),
        decreases rows@.len(),
    {
        let ghost j = orig.len() - rows@.len();
        let row = rows.remove(0);
        proof {
            assert(row == orig.skip(j as int)[0]);
            assert(row == orig[j as int]);
            assert(rows@ =~= orig.skip(j + 1));
        }
        let day = day_of(row.created_at);
        let ExerciseGraphJoinQuery { name, reps, weight, .. } = row;
        insert_entry(&mut groups, name, (day, (weight, reps)));
        proof {
            assert(orig.take(j + 1).drop_last() =~= orig.take(j as int));
            assert(orig.take(j + 1).last() == orig[j as int]);
        }
    }
    proof {
        assert(orig.take(orig.len() as int) =~= orig);
    }
    let mut groups = groups;
    let ghost gs = groups_view(groups@);
    let mut out: Vec<ExerciseGraphQuery> = Vec::new();
    proof {
        assert(gs.take(0) =~= Seq::<(Seq<char>, Seq<(i64, (u64, i32))>)>::empty());
        assert(graph_view(out@) =~~= gs.take(0).map_values(graph_days_fn()));
        assert(groups_view(groups@) =~~= gs.skip(0));
    }
    while groups.len() > 0
        invariant
            groups@.len() <= gs.len(),
            groups_view(groups@) == gs.skip(gs.len() - groups@.len()),
            graph_view(out@) == gs.take(gs.len() - groups@.len()).map_values(graph_days_fn()),
        decreases groups@.len(),
    {
        let ghost k = gs.len() - groups@.len();
        let ghost pre = groups@;
        let (nm, es) = groups.remove(0);
        proof {
            assert((nm, es) == pre[0]);
            assert(groups_view(pre)[0] == (pre[0].0@, pre[0].1@));
            assert((nm@, es@) == gs.skip(k as int)[0]);
            assert((nm@, es@) == gs[k as int]);
            assert(groups_view(groups@) =~~= gs.skip(k + 1)) by {
                assert forall|i: int| 0 <= i < groups@.len() implies groups_view(groups@)[i]
                    == gs.skip(k + 1)[i] by {
                    assert(groups@[i] == pre[i + 1]);
                    assert(groups_view(groups@)[i] == (groups@[i].0@, groups@[i].1@));
                    assert(groups_view(pre)[i + 1] == (pre[i + 1].0@, pre[i + 1].1@));
                    assert(groups_view(pre)[i + 1] == gs.skip(k as int)[i + 1]);
                    assert(gs.skip(k as int)[i + 1] == gs[k + 1 + i]);
                    assert(gs.skip(k + 1)[i] == gs[k + 1 + i]);
                }
            }
        }
        let mut dated = group_dates(&es);
        let mut per_date: Vec<ExerciseGraphQueryPerDate> = Vec::new();
        let ghost dv = dated_view(dated@);
        proof {
            assert(per_date_view(per_date@) =~~= dv.take(0));
            assert(dated_view(dated@) =~~= dv.skip(0));
        }
        while dated.len() > 0
            invariant
                dated@.len() <= dv.len(),
                dated_view(dated@) == dv.skip(dv.len() - dated@.len()),
                per_date_view(per_date@) == dv.take(dv.len() - dated@.len()),
            decreases dated@.len(),
        {
            let ghost m = dv.len() - dated@.len();
            let ghost dpre = dated@;
            let (day, ws) = dated.remove(0);
            proof {
                assert((day, ws) == dpre[0]);
                assert(dated_view(dpre)[0] == (dpre[0].0, dpre[0].1@));
                assert((day, ws@) == dv.skip(m as int)[0]);
                assert((day, ws@) == dv[m as int]);
                assert(dated_view(dated@) =~~= dv.skip(m + 1)) by {
                    assert forall|i: int| 0 <= i < dated@.len() implies dated_view(dated@)[i]
                        == dv.skip(m + 1)[i] by {
                        assert(dated@[i] == dpre[i + 1]);
                        assert(dated_view(dated@)[i] == (dated@[i].0, dated@[i].1@));
                        assert(dated_view(dpre)[i + 1] == (dpre[i + 1].0, dpre[i + 1].1@));
                        assert(dated_view(dpre)[i + 1] == dv.skip(m as int)[i + 1]);
                        assert(dv.skip(m as int)[i + 1] == dv[m + 1 + i]);
                        assert(dv.skip(m + 1)[i] == dv[m + 1 + i]);
                    }
                }
            }
            let ghost wsv = ws@;
            let ghost dpre_out = per_date@;
            per_date.push(ExerciseGraphQueryPerDate { date: day, weights: ws });
            proof {
                assert(per_date_view(per_date@) =~~= dv.take(m + 1)) by {
                    assert(per_date@.len() == dpre_out.len() + 1);
                    assert(per_date_view(dpre_out).len() == dpre_out.len());
                    assert(dv.take(m as int).len() == m);
                    assert(dpre_out.len() == m);
                    assert forall|i: int| 0 <= i <= m implies per_date_view(per_date@)[i]
                        == dv.take(m + 1)[i] by {
                        assert(per_date_view(per_date@)[i] == (per_date@[i].date, per_date@[i].weights@));
                        assert(dv.take(m + 1)[i] == dv[i]);
                        if i < m {
                            assert(per_date@[i] == dpre_out[i]);
                            assert(per_date_view(dpre_out)[i] == (dpre_out[i].date, dpre_out[i].weights@));
                            assert(per_date_view(dpre_out)[i] == dv.take(m as int)[i]);
                            assert(dv.take(m as int)[i] == dv[i]);
                        } else {
                            assert(per_date@[i].date == day && per_date@[i].weights@ == wsv);
                        }
                    }
                }
            }
        }
        proof {
            assert(dv.take(dv.len() as int) =~= dv);
        }
        let ghost nmv = nm@;
        let ghost pre_out = out@;
        out.push(ExerciseGraphQuery { name: nm, per_date });
        proof {
            let f = graph_days_fn();
            assert(graph_view(pre_out) == gs.take(k as int).map_values(f));
            assert(graph_view(pre_out).len() == pre_out.len());
            assert(gs.take(k as int).len() == k);
            assert(gs.take(k as int).map_values(f).len() == k);
            assert(pre_out.len() == k);
            assert(graph_view(out@) =~~= gs.take(k + 1).map_values(f)) by {
                assert(out@.len() == k + 1);
                assert forall|i: int| 0 <= i <= k implies graph_view(out@)[i] == gs.take(
                    k + 1,
                ).map_values(f)[i] by {
                    assert(gs.take(k + 1).map_values(f)[i] == f(gs.take(k + 1)[i]));
                    assert(gs.take(k + 1)[i] == gs[i]);
                    assert(graph_view(out@)[i] == (out@[i].name@, per_date_view(out@[i].per_date@)));
                    if i < k {
                        assert(out@[i] == pre_out[i]);
                        assert(graph_view(pre_out)[i] == (pre_out[i].name@, per_date_view(
                            pre_out[i].per_date@,
                        )));
                        assert(graph_view(pre_out)[i] == gs.take(k as int).map_values(f)[i]);
                        assert(gs.take(k as int).map_values(f)[i] == f(gs.take(k as int)[i]));
                        assert(gs.take(k as int)[i] == gs[i]);
                    } else {
                        assert(out@[i].name@ == nmv);
                        assert(per_date_view(out@[i].per_date@) == dv);
                        assert(dv == spec_group_dates(es@));
                        assert(gs[k as int] == (nmv, es@));
                        assert(f(gs[k as int]) == graph_group_days(gs[k as int]));
                    }
                }
            }
        }
    }
    proof {
        assert(gs.take(gs.len() as int) =~= gs);
    }
    out
}

} // verus!
