//! The exercise-history query: order a user's joined set rows by time, most
//! recent first, apply the optional row cap, and reshape every remaining row
//! into its kind-specific variant, failing on the first malformed row.

use vstd::prelude::*;

use crate::exercise::ExerciseKind;
use crate::exercise::ExerciseSetBodyweightQuery;
use crate::exercise::ExerciseSetJoinQuery;
use crate::exercise::ExerciseSetQuery;
use crate::exercise::ExerciseSetWeightedQuery;
use crate::exercise::spec_bodyweight_from_join;
use crate::exercise::spec_weighted_from_join;
use crate::order::is_strict_order;
use crate::order::lemma_insert_before_at;
use crate::order::lemma_sort_by_before_sorted;
use crate::order::sort_by_before;
use crate::order::sorted_by_before;
use crate::pr::take_at_most;
use crate::AppError;

verus! {

/// The history ordering: a later row comes strictly before an earlier one;
/// rows of equal time keep their stored order.
pub open spec fn row_time_before(a: ExerciseSetJoinQuery, b: ExerciseSetJoinQuery) -> bool {
    a.created_at > b.created_at
}

/// The history ordering as a relation value.
pub open spec fn time_ord() -> spec_fn(ExerciseSetJoinQuery, ExerciseSetJoinQuery) -> bool {
    |a: ExerciseSetJoinQuery, b: ExerciseSetJoinQuery| row_time_before(a, b)
}

pub proof fn lemma_time_ord_strict()
    ensures
        is_strict_order(time_ord()),
{
}

/// Reshape one joined row into the variant its kind tag demands.
pub open spec fn spec_convert_row(v: ExerciseSetJoinQuery) -> Result<ExerciseSetQuery, AppError> {
    match v.kind {
        ExerciseKind::Weighted => match spec_weighted_from_join(v) {
            Result::Ok(w) => Result::Ok(ExerciseSetQuery::Weighted(w)),
            Result::Err(e) => Result::Err(e),
        },
        ExerciseKind::Bodyweight => match spec_bodyweight_from_join(v) {
            Result::Ok(b) => Result::Ok(ExerciseSetQuery::Bodyweight(b)),
            Result::Err(e) => Result::Err(e),
        },
    }
}

/// The variant a well-formed row reshapes to.
pub open spec fn convert_ok(v: ExerciseSetJoinQuery) -> ExerciseSetQuery {
    spec_convert_row(v)->Ok_0
}

pub open spec fn convert_ok_fn() -> spec_fn(ExerciseSetJoinQuery) -> ExerciseSetQuery {
    |v: ExerciseSetJoinQuery| convert_ok(v)
}

/// Reshape rows in order; the first malformed row's error is the result.
pub open spec fn spec_convert_rows(rows: Seq<ExerciseSetJoinQuery>) -> Result<
    Seq<ExerciseSetQuery>,
    AppError,
>
    decreases rows.len(),
{
    if rows.len() == 0 {
        Result::Ok(Seq::empty())
    } else {
        match spec_convert_row(rows[0]) {
            Result::Err(e) => Result::Err(e),
            Result::Ok(v) => match spec_convert_rows(rows.drop_first()) {
                Result::Err(e) => Result::Err(e),
                Result::Ok(t) => Result::Ok(seq![v] + t),
            },
        }
    }
}

/// The rows the history view consists of: time-ordered, then capped.
pub open spec fn spec_history_rows(rows: Seq<ExerciseSetJoinQuery>, limit: Option<u64>) -> Seq<
    ExerciseSetJoinQuery,
> {
    let sorted = sort_by_before(rows, time_ord());
    match limit {
        Option::Some(l) => take_at_most(sorted, l as int),
        Option::None => sorted,
    }
}

/// The whole history query as a function of the rows and the cap.
pub open spec fn spec_history(rows: Seq<ExerciseSetJoinQuery>, limit: Option<u64>) -> Result<
    Seq<ExerciseSetQuery>,
    AppError,
> {
    spec_convert_rows(spec_history_rows(rows, limit))
}

/// When every row of a prefix is well formed, converting the whole sequence
/// is converting the prefix element-wise and the remainder as a whole.
proof fn lemma_convert_rows_split(s: Seq<ExerciseSetJoinQuery>, i: int)
    requires
        0 <= i <= s.len(),
        forall|k: int| 0 <= k < i ==> spec_convert_row(#[trigger] s[k]) is Ok,
    ensures
        spec_convert_rows(s) == match spec_convert_rows(s.skip(i)) {
            Result::Err(e) => Result::<Seq<ExerciseSetQuery>, AppError>::Err(e),
            Result::Ok(t) => Result::<Seq<ExerciseSetQuery>, AppError>::Ok(
                s.take(i).map_values(convert_ok_fn()) + t,
            ),
        },
    decreases i,
{
    if i == 0 {
        assert(s.skip(0) =~= s);
        if spec_convert_rows(s) is Ok {
            assert(s.take(0).map_values(convert_ok_fn()) + spec_convert_rows(s)->Ok_0
                =~= spec_convert_rows(s)->Ok_0);
        }
    } else {
        lemma_convert_rows_split(s, i - 1);
        let rest = s.skip(i - 1);
        assert(rest[0] == s[i - 1]);
        assert(spec_convert_row(rest[0]) is Ok);
        assert(rest.drop_first() =~= s.skip(i));
        // one unfolding of spec_convert_rows on `rest`
        match spec_convert_rows(s.skip(i)) {
            Result::Err(_) => {
            },
            Result::Ok(t) => {
                assert(spec_convert_rows(rest) == Result::<Seq<ExerciseSetQuery>, AppError>::Ok(
                    seq![convert_ok(rest[0])] + t,
                ));
                assert(s.take(i - 1).map_values(convert_ok_fn()) + (seq![convert_ok(s[i - 1])] + t)
                    =~= s.take(i).map_values(convert_ok_fn()) + t);
            },
        }
    }
}

/// A conversion that succeeds is the element-wise reshaping, so every row was
/// well formed.
proof fn lemma_convert_rows_ok(s: Seq<ExerciseSetJoinQuery>)
    requires
        spec_convert_rows(s) is Ok,
    ensures
        forall|k: int| 0 <= k < s.len() ==> spec_convert_row(#[trigger] s[k]) is Ok,
        spec_convert_rows(s)->Ok_0 == s.map_values(convert_ok_fn()),
    decreases s.len(),
{
    if s.len() == 0 {
        assert(s.map_values(convert_ok_fn()) =~= Seq::<ExerciseSetQuery>::empty());
    } else {
        lemma_convert_rows_ok(s.drop_first());
        assert forall|k: int| 0 <= k < s.len() implies spec_convert_row(#[trigger] s[k]) is Ok by {
            if k > 0 {
                assert(s.drop_first()[k - 1] == s[k]);
            }
        }
        assert(seq![convert_ok(s[0])] + s.drop_first().map_values(convert_ok_fn())
            =~= s.map_values(convert_ok_fn())) by {
            assert forall|k: int| 0 <= k < s.len() implies (seq![convert_ok(s[0])]
                + s.drop_first().map_values(convert_ok_fn()))[k] == s.map_values(convert_ok_fn())[k]
                by {
                if k > 0 {
                    assert(s.drop_first().map_values(convert_ok_fn())[k - 1] == convert_ok_fn()(
                        s.drop_first()[k - 1],
                    ));
                    assert(s.drop_first()[k - 1] == s[k]);
                }
            }
        }
    }
}

/// Sort joined rows by time, most recent first; rows of equal time keep
/// their incoming order.
fn sort_rows_desc(rows: Vec<ExerciseSetJoinQuery>) -> (r: Vec<ExerciseSetJoinQuery>)
    ensures
        r@ == sort_by_before(rows@, time_ord()),
{
    let ghost orig = rows@;
    let mut rows = rows;
    let mut out: Vec<ExerciseSetJoinQuery> = Vec::new();
    proof {
        assert(orig.take(0) =~= Seq::<ExerciseSetJoinQuery>::empty());
        assert(rows@ =~= orig.skip(0));
    }
    while rows.len() > 0
        invariant
            rows@.len() <= orig.len(),
            rows@ == orig.skip(orig.len() - rows@.len()),
            out@ == sort_by_before(orig.take(orig.len() - rows@.len()), time_ord()),
        decreases rows@.len(),
    {
        let ghost j = orig.len() - rows@.len();
        let x = rows.remove(0);
        proof {
            assert(x == orig.skip(j as int)[0]);
            assert(x == orig[j as int]);
            assert(rows@ =~= orig.skip(j + 1));
        }
        let mut p: usize = 0;
        while p < out.len() && !(x.created_at > out[p].created_at)
            invariant
                p <= out.len(),
                forall|k: int| 0 <= k < p ==> !row_time_before(x, #[trigger] out@[k]),
            decreases out.len() - p,
        {
            p = p + 1;
        }
        proof {
            assert(forall|k: int| 0 <= k < p ==> !(time_ord()(x, #[trigger] out@[k])));
            assert(p < out@.len() ==> time_ord()(x, out@[p as int]));
            lemma_insert_before_at(out@, x, time_ord(), p as int);
            assert(orig.take(j + 1).drop_last() =~= orig.take(j as int));
            assert(orig.take(j + 1).last() == orig[j as int]);
        }
        out.insert(p, x);
    }
    proof {
        assert(orig.take(orig.len() as int) =~= orig);
    }
    out
}

/// The history query: the rows of one user, most recent first, capped at
/// `limit_opt` when given, each reshaped into its kind's variant. Succeeds
/// exactly when every row within the cap is well formed; otherwise the first
/// malformed row's error is returned and no history is produced.
pub fn get_exercise_sets(rows: Vec<ExerciseSetJoinQuery>, limit_opt: Option<u64>) -> (r: Result<
    Vec<ExerciseSetQuery>,
    AppError,
>)
    ensures
        match r {
            Result::Ok(v) => spec_history(rows@, limit_opt) is Ok && v@ == spec_history(
                rows@,
                limit_opt,
            )->Ok_0,
            Result::Err(e) => spec_history(rows@, limit_opt) is Err && e == spec_history(
                rows@,
                limit_opt,
            )->Err_0,
        },
{
    let mut sorted = sort_rows_desc(rows);
    match limit_opt {
        Option::Some(l) => {
            if l < sorted.len() as u64 {
                sorted.truncate(l as usize);
            }
        },
        Option::None => {},
    }
    proof {
        assert(sorted@ == spec_history_rows(rows@, limit_opt));
    }
    let ghost limited = sorted@;
    let mut res: Vec<ExerciseSetQuery> = Vec::new();
    proof {
        assert(limited.take(0).map_values(convert_ok_fn()) =~= Seq::<ExerciseSetQuery>::empty());
        assert(sorted@ =~= limited.skip(0));
    }
    while sorted.len() > 0
        invariant
            sorted@.len() <= limited.len(),
            sorted@ == limited.skip(limited.len() - sorted@.len()),
            forall|k: int|
                0 <= k < limited.len() - sorted@.len() ==> spec_convert_row(
                    #[trigger] limited[k],
                ) is Ok,
            res@ == limited.take(limited.len() - sorted@.len()).map_values(convert_ok_fn()),
            spec_history(rows@, limit_opt) == spec_convert_rows(limited),
        decreases sorted@.len(),
    {
        let ghost k = limited.len() - sorted@.len();
        let row = sorted.remove(0);
        proof {
            assert(row == limited.skip(k as int)[0]);
            assert(row == limited[k as int]);
            assert(sorted@ =~= limited.skip(k + 1));
        }
        let conv: Result<ExerciseSetQuery, AppError> = match row.kind {
            ExerciseKind::Weighted => {
                match ExerciseSetWeightedQuery::try_from_join(row) {
                    Result::Ok(w) => Result::Ok(ExerciseSetQuery::Weighted(w)),
                    Result::Err(e) => Result::Err(e),
                }
            },
            ExerciseKind::Bodyweight => {
                match ExerciseSetBodyweightQuery::try_from_join(row) {
                    Result::Ok(b) => Result::Ok(ExerciseSetQuery::Bodyweight(b)),
                    Result::Err(e) => Result::Err(e),
                }
            },
        };
        proof {
            assert(conv == spec_convert_row(limited[k as int]));
        }
        match conv {
            Result::Ok(v) => {
                res.push(v);
                proof {
                    assert(res@ =~= limited.take(k + 1).map_values(convert_ok_fn())) by {
                        assert forall|i: int| 0 <= i <= k implies limited.take(k + 1).map_values(
                            convert_ok_fn(),
                        )[i] == res@[i] by {
                            assert(limited.take(k + 1).map_values(convert_ok_fn())[i]
                                == convert_ok_fn()(limited.take(k + 1)[i]));
                            assert(limited.take(k + 1)[i] == limited[i]);
                            if i < k {
                                assert(limited.take(k as int).map_values(convert_ok_fn())[i]
                                    == convert_ok_fn()(limited.take(k as int)[i]));
                                assert(limited.take(k as int)[i] == limited[i]);
                            }
                        }
                    }
                }
            },
            Result::Err(e) => {
                proof {
                    lemma_convert_rows_split(limited, k as int);
                    assert(limited.skip(k as int)[0] == limited[k as int]);
                    assert(spec_convert_rows(limited.skip(k as int)) == Result::<
                        Seq<ExerciseSetQuery>,
                        AppError,
                    >::Err(e));
                }
                return Result::Err(e);
            },
        }
    }
    proof {
        lemma_convert_rows_split(limited, limited.len() as int);
        assert(limited.skip(limited.len() as int).len() == 0);
        assert(limited.take(limited.len() as int) =~= limited);
        assert(res@ =~= limited.map_values(convert_ok_fn()) + Seq::<ExerciseSetQuery>::empty());
    }
    Result::Ok(res)
}

/// History ordering: whenever the history query succeeds, its list is
/// non-increasing in the rows' timestamps.
pub proof fn lemma_history_ordering(rows: Seq<ExerciseSetJoinQuery>, limit: Option<u64>)
    requires
        spec_history(rows, limit) is Ok,
    ensures
        forall|i: int, j: int|
            0 <= i < j < spec_history(rows, limit)->Ok_0.len() ==> (#[trigger] spec_history(
                rows,
                limit,
            )->Ok_0[i]).spec_created_at() >= (#[trigger] spec_history(rows, limit)->Ok_0[
                j
            ]).spec_created_at(),
{
    lemma_time_ord_strict();
    lemma_sort_by_before_sorted(rows, time_ord());
    let sorted = sort_by_before(rows, time_ord());
    let limited = spec_history_rows(rows, limit);
    assert(sorted_by_before(limited, time_ord())) by {
        assert forall|i: int, j: int| 0 <= i < j < limited.len() implies !(time_ord()(
            limited[j],
            limited[i],
        )) by {
            assert(limited[i] == sorted[i] && limited[j] == sorted[j]);
        }
    }
    lemma_convert_rows_ok(limited);
    let hist = spec_history(rows, limit)->Ok_0;
    assert forall|i: int, j: int|
        0 <= i < j < hist.len() implies (#[trigger] hist[i]).spec_created_at() >= (
    #[trigger] hist[j]).spec_created_at() by {
        assert(hist[i] == convert_ok_fn()(limited[i]));
        assert(hist[j] == convert_ok_fn()(limited[j]));
        assert(!(time_ord()(limited[j], limited[i])));
        assert(convert_ok(limited[i]).spec_created_at() == limited[i].created_at);
        assert(convert_ok(limited[j]).spec_created_at() == limited[j].created_at);
    }
}

} // verus!
