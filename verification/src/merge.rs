//! Administrative merge of two exercise names: repoint every set entry of the
//! name to delete onto the name to expand — creating the latter with the
//! former's kind when it does not exist — then drop the deleted name. The
//! whole step is one pure function of the two tables, so a rejected merge
//! leaves them untouched; a caller that writes the result back atomically
//! gets the all-or-nothing behaviour the operation demands.

use vstd::prelude::*;

use crate::exercise::ExerciseKind;
use crate::exercise::MergeNames;
use crate::strings::str_eq;
use crate::AppError;

verus! {

/// A stored exercise-name record, as the name table holds it.
#[derive(Debug)]
pub struct ExerciseNameRow {
    pub id: i32,
    pub name: String,
    pub kind: ExerciseKind,
}

/// A set entry's link to its exercise name; the merge touches nothing else
/// of a set entry, so nothing else is modelled.
#[derive(Debug, Clone, Copy, PartialEq, Eq, Structural)]
pub struct ExerciseSetRow {
    pub id: i32,
    pub name_id: i32,
}

/// The tables after a successful merge, and how many set entries were
/// repointed — the number the caller displays.
#[derive(Debug)]
pub struct MergeOutcome {
    pub names: Vec<ExerciseNameRow>,
    pub sets: Vec<ExerciseSetRow>,
    pub rows_affected: u64,
}

/// The mathematical content of one name record.
pub open spec fn name_row_view(r: ExerciseNameRow) -> (i32, Seq<char>, ExerciseKind) {
    (r.id, r.name@, r.kind)
}

/// The mathematical content of the name table.
pub open spec fn names_view(v: Seq<ExerciseNameRow>) -> Seq<(i32, Seq<char>, ExerciseKind)> {
    v.map_values(|r: ExerciseNameRow| name_row_view(r))
}

/// The first record bearing `name`, if any.
pub open spec fn spec_find_name(
    names: Seq<(i32, Seq<char>, ExerciseKind)>,
    name: Seq<char>,
) -> Option<int>
    decreases names.len(),
{
    if names.len() == 0 {
        Option::None
    } else if names[0].1 == name {
        Option::Some(0)
    } else {
        match spec_find_name(names.drop_first(), name) {
            Option::Some(i) => Option::Some(i + 1),
            Option::None => Option::None,
        }
    }
}

/// `spec_find_name` returns exactly the first matching position.
pub proof fn lemma_find_name_at(
    names: Seq<(i32, Seq<char>, ExerciseKind)>,
    name: Seq<char>,
    pos: int,
)
    requires
        0 <= pos <= names.len(),
        forall|k: int| 0 <= k < pos ==> (#[trigger] names[k]).1 != name,
        pos < names.len() ==> names[pos].1 == name,
    ensures
        spec_find_name(names, name) == if pos < names.len() {
            Option::Some(pos)
        } else {
            Option::<int>::None
        },
    decreases names.len(),
{
    if names.len() == 0 {
    } else if names[0].1 == name {
        assert(pos == 0);
    } else {
        assert(pos >= 1);
        assert forall|k: int| 0 <= k < pos - 1 implies (#[trigger] names.drop_first()[k]).1 != name
            by {
            assert(names.drop_first()[k] == names[k + 1]);
        }
        lemma_find_name_at(names.drop_first(), name, pos - 1);
    }
}

/// The position a find returns carries the name looked for, and nothing
/// before it does.
pub proof fn lemma_find_name_found(names: Seq<(i32, Seq<char>, ExerciseKind)>, name: Seq<char>)
    requires
        spec_find_name(names, name) is Some,
    ensures
        0 <= spec_find_name(names, name)->Some_0 < names.len(),
        names[spec_find_name(names, name)->Some_0].1 == name,
    decreases names.len(),
{
    if names.len() > 0 && names[0].1 != name {
        lemma_find_name_found(names.drop_first(), name);
    }
}

/// The greatest identifier in the name table, 0 when it is empty; a fresh
/// record gets the next identifier, as an auto-increment column would.
pub open spec fn spec_max_id(names: Seq<(i32, Seq<char>, ExerciseKind)>) -> int
    decreases names.len(),
{
    if names.len() == 0 {
        0
    } else if spec_max_id(names.drop_last()) >= names.last().0 as int {
        spec_max_id(names.drop_last())
    } else {
        names.last().0 as int
    }
}

/// A set entry after the repointing pass.
pub open spec fn repoint_row(s: ExerciseSetRow, from: i32, to: i32) -> ExerciseSetRow {
    if s.name_id == from {
        ExerciseSetRow { id: s.id, name_id: to }
    } else {
        s
    }
}

/// Every set entry of `from` now references `to`; the rest are untouched.
pub open spec fn spec_repoint(sets: Seq<ExerciseSetRow>, from: i32, to: i32) -> Seq<
    ExerciseSetRow,
> {
    sets.map_values(|s: ExerciseSetRow| repoint_row(s, from, to))
}

/// How many set entries reference `name_id`.
pub open spec fn spec_count_sets(sets: Seq<ExerciseSetRow>, name_id: i32) -> int
    decreases sets.len(),
{
    if sets.len() == 0 {
        0int
    } else {
        spec_count_sets(sets.drop_last(), name_id) + if sets.last().name_id == name_id {
            1int
        } else {
            0int
        }
    }
}

pub proof fn lemma_count_sets_bounds(sets: Seq<ExerciseSetRow>, name_id: i32)
    ensures
        0 <= spec_count_sets(sets, name_id) <= sets.len(),
    decreases sets.len(),
{
    if sets.len() > 0 {
        lemma_count_sets_bounds(sets.drop_last(), name_id);
    }
}

/// What merging `to_delete` into `to_expand` does to the tables: the error
/// when it is rejected, or the new name table, the new set table, and the
/// repointed-row count.
pub open spec fn spec_merge(
    names: Seq<(i32, Seq<char>, ExerciseKind)>,
    sets: Seq<ExerciseSetRow>,
    to_delete: Seq<char>,
    to_expand: Seq<char>,
) -> Result<(Seq<(i32, Seq<char>, ExerciseKind)>, Seq<ExerciseSetRow>, int), AppError> {
    match spec_find_name(names, to_delete) {
        Option::None => Result::Err(AppError::ResourceNotFound),
        Option::Some(d) => {
            let delete_row = names[d];
            match spec_find_name(names, to_expand) {
                Option::Some(e) => if names[e].2 != delete_row.2 {
                    Result::Err(AppError::ValidationError)
                } else {
                    Result::Ok(
                        (
                            names.remove(d),
                            spec_repoint(sets, delete_row.0, names[e].0),
                            spec_count_sets(sets, delete_row.0),
                        ),
                    )
                },
                Option::None => {
                    let new_id = (spec_max_id(names) + 1) as i32;
                    Result::Ok(
                        (
                            names.remove(d).push((new_id, to_expand, delete_row.2)),
                            spec_repoint(sets, delete_row.0, new_id),
                            spec_count_sets(sets, delete_row.0),
                        ),
                    )
                },
            }
        },
    }
}

/// Merge with kind mismatch: when both names resolve to records of different
/// kinds, the merge is rejected as invalid — and, the merge being a pure
/// function of the tables, the tables it was given stand unchanged.
pub proof fn lemma_merge_kind_mismatch(
    names: Seq<(i32, Seq<char>, ExerciseKind)>,
    sets: Seq<ExerciseSetRow>,
    to_delete: Seq<char>,
    to_expand: Seq<char>,
)
    requires
        spec_find_name(names, to_delete) is Some,
        spec_find_name(names, to_expand) is Some,
        names[spec_find_name(names, to_delete)->Some_0].2 != names[spec_find_name(
            names,
            to_expand,
        )->Some_0].2,
    ensures
        spec_merge(names, sets, to_delete, to_expand) == Result::<
            (Seq<(i32, Seq<char>, ExerciseKind)>, Seq<ExerciseSetRow>, int),
            AppError,
        >::Err(AppError::ValidationError),
{
}

/// A merge of a missing source name is rejected as not found.
pub proof fn lemma_merge_not_found(
    names: Seq<(i32, Seq<char>, ExerciseKind)>,
    sets: Seq<ExerciseSetRow>,
    to_delete: Seq<char>,
    to_expand: Seq<char>,
)
    requires
        spec_find_name(names, to_delete) is None,
    ensures
        spec_merge(names, sets, to_delete, to_expand) == Result::<
            (Seq<(i32, Seq<char>, ExerciseKind)>, Seq<ExerciseSetRow>, int),
            AppError,
        >::Err(AppError::ResourceNotFound),
{
}

/// Find the first record bearing `name`.
fn find_name(names: &Vec<ExerciseNameRow>, name: &str) -> (r: Option<usize>)
    ensures
        match r {
            Option::Some(i) => spec_find_name(names_view(names@), name@) == Option::Some(i as int),
            Option::None => spec_find_name(names_view(names@), name@) is None,
        },
{
    let ghost nv = names_view(names@);
    let mut i: usize = 0;
    while i < names.len()
        invariant
            i <= names.len(),
            nv == names_view(names@),
            forall|k: int| 0 <= k < i ==> (#[trigger] nv[k]).1 != name@,
        decreases names.len() - i,
    {
        if str_eq(names[i].name.as_str(), name) {
            proof {
                assert(nv[i as int].1 == names@[i as int].name@);
                lemma_find_name_at(nv, name@, i as int);
            }
            return Option::Some(i);
        }
        proof {
            assert(nv[i as int].1 == names@[i as int].name@);
        }
        i = i + 1;
    }
    proof {
        lemma_find_name_at(nv, name@, names@.len() as int);
    }
    Option::None
}

/// The greatest identifier in the name table, 0 when it is empty.
fn max_name_id(names: &Vec<ExerciseNameRow>) -> (r: i32)
    ensures
        r as int == spec_max_id(names_view(names@)),
{
    let ghost nv = names_view(names@);
    let mut m: i32 = 0;
    let mut i: usize = 0;
    proof {
        assert(nv.take(0) =~= Seq::<(i32, Seq<char>, ExerciseKind)>::empty());
    }
    while i < names.len()
        invariant
            i <= names.len(),
            nv == names_view(names@),
            m as int == spec_max_id(nv.take(i as int)),
        decreases names.len() - i,
    {
        proof {
            assert(nv.take(i + 1).drop_last() =~= nv.take(i as int));
            assert(nv.take(i + 1).last() == nv[i as int]);
            assert(nv[i as int].0 == names@[i as int].id);
        }
        let id = names[i].id;
        if id > m {
            m = id;
        }
        i = i + 1;
    }
    proof {
        assert(nv.take(nv.len() as int) =~= nv);
    }
    m
}

/// A copy of a stored name record.
fn duplicate_name_row(r: &ExerciseNameRow) -> (c: ExerciseNameRow)
    ensures
        c == *r,
{
    ExerciseNameRow { id: r.id, name: r.name.clone(), kind: r.kind }
}

/// Merge the history of `payload.to_delete` into `payload.to_expand`.
///
/// Succeeds exactly when `to_delete` names an existing record and `to_expand`
/// is either absent (it is then created with `to_delete`'s kind and a fresh
/// identifier) or of the same kind; on success every set entry of the deleted
/// name references the target, the deleted record is gone, and
/// `rows_affected` reports how many entries were repointed. On failure the
/// given tables are returned to the caller unchanged.
pub fn merge_names(
    names: Vec<ExerciseNameRow>,
    sets: Vec<ExerciseSetRow>,
    payload: &MergeNames,
) -> (r: Result<MergeOutcome, AppError>)
    requires
        spec_max_id(names_view(names@)) < i32::MAX as int,
    ensures
        match r {
            Result::Ok(out) => {
                &&& spec_merge(names_view(names@), sets@, payload.to_delete@, payload.to_expand@)
                    is Ok
                &&& {
                    let ok = spec_merge(
                        names_view(names@),
                        sets@,
                        payload.to_delete@,
                        payload.to_expand@,
                    )->Ok_0;
                    &&& names_view(out.names@) == ok.0
                    &&& out.sets@ == ok.1
                    &&& out.rows_affected as int == ok.2
                }
            },
            Result::Err(e) => {
                &&& spec_merge(names_view(names@), sets@, payload.to_delete@, payload.to_expand@)
                    == Result::<
                    (Seq<(i32, Seq<char>, ExerciseKind)>, Seq<ExerciseSetRow>, int),
                    AppError,
                >::Err(e)
            },
        },
{
    let ghost nv = names_view(names@);
    let d = match find_name(&names, payload.to_delete.as_str()) {
        Option::Some(d) => d,
        Option::None => {
            return Result::Err(AppError::ResourceNotFound);
        },
    };
    proof {
        lemma_find_name_found(nv, payload.to_delete@);
        assert(nv[d as int] == name_row_view(names@[d as int]));
    }
    let delete_id = names[d].id;
    let delete_kind = names[d].kind;
    let (target_id, create): (i32, bool) = match find_name(&names, payload.to_expand.as_str()) {
        Option::Some(e) => {
            proof {
                lemma_find_name_found(nv, payload.to_expand@);
                assert(nv[e as int] == name_row_view(names@[e as int]));
            }
            if names[e].kind != delete_kind {
                return Result::Err(AppError::ValidationError);
            }
            (names[e].id, false)
        },
        Option::None => {
            let m = max_name_id(&names);
            (m + 1, true)
        },
    };
    // rebuild the name table: every record but the deleted one, then the
    // created record, if any
    let mut new_names: Vec<ExerciseNameRow> = Vec::new();
    let mut i: usize = 0;
    proof {
        assert(names_view(new_names@) =~= nv.remove(d as int).take(0));
    }
    while i < names.len()
        invariant
            i <= names.len(),
            d < names.len(),
            nv == names_view(names@),
            names_view(new_names@) == nv.remove(d as int).take(
                if i <= d {
                    i as int
                } else {
                    i - 1
                },
            ),
        decreases names.len() - i,
    {
        if i != d {
            let ghost pre = names_view(new_names@);
            new_names.push(duplicate_name_row(&names[i]));
            proof {
                let ghost pos: int = if i <= d {
                    i as int
                } else {
                    i - 1
                };
                assert(names_view(new_names@) =~~= pre.push(nv[i as int])) by {
                    assert forall|k: int| 0 <= k < new_names@.len() implies names_view(
                        new_names@,
                    )[k] == pre.push(nv[i as int])[k] by {
                        assert(names_view(new_names@)[k] == name_row_view(new_names@[k]));
                        if k < pre.len() {
                            assert(pre[k] == name_row_view(new_names@[k]));
                        }
                    }
                }
                assert(nv.remove(d as int).take(pos + 1) =~= nv.remove(d as int).take(pos).push(
                    nv.remove(d as int)[pos],
                ));
                assert(nv.remove(d as int)[pos] == nv[i as int]);
            }
        }
        i = i + 1;
    }
    proof {
        assert(nv.remove(d as int).take(nv.remove(d as int).len() as int) =~= nv.remove(d as int));
    }
    if create {
        let ghost pre = names_view(new_names@);
        new_names.push(
            ExerciseNameRow { id: target_id, name: payload.to_expand.clone(), kind: delete_kind },
        );
        proof {
            assert(names_view(new_names@) =~~= pre.push(
                (target_id, payload.to_expand@, delete_kind),
            )) by {
                assert forall|k: int| 0 <= k < new_names@.len() implies names_view(new_names@)[k]
                    == pre.push((target_id, payload.to_expand@, delete_kind))[k] by {
                    assert(names_view(new_names@)[k] == name_row_view(new_names@[k]));
                    if k < pre.len() {
                        assert(pre[k] == name_row_view(new_names@[k]));
                    }
                }
            }
        }
    }
    // repoint the set entries and count how many moved
    let mut new_sets: Vec<ExerciseSetRow> = Vec::new();
    let mut moved: usize = 0;
    let mut j: usize = 0;
    proof {
        assert(new_sets@ =~= spec_repoint(sets@.take(0), delete_id, target_id));
        assert(spec_count_sets(sets@.take(0), delete_id) == 0);
    }
    while j < sets.len()
        invariant
            j <= sets.len(),
            new_sets@ == spec_repoint(sets@.take(j as int), delete_id, target_id),
            moved as int == spec_count_sets(sets@.take(j as int), delete_id),
            moved <= j,
        decreases sets.len() - j,
    {
        let s = sets[j];
        proof {
            assert(sets@.take(j + 1).drop_last() =~= sets@.take(j as int));
            assert(sets@.take(j + 1).last() == sets@[j as int]);
            lemma_count_sets_bounds(sets@.take(j as int), delete_id);
            assert(spec_repoint(sets@.take(j + 1), delete_id, target_id) =~= spec_repoint(
                sets@.take(j as int),
                delete_id,
                target_id,
            ).push(repoint_row(sets@[j as int], delete_id, target_id)));
        }
        if s.name_id == delete_id {
            new_sets.push(ExerciseSetRow { id: s.id, name_id: target_id });
            moved = moved + 1;
        } else {
            new_sets.push(s);
        }
        j = j + 1;
    }
    proof {
        assert(sets@.take(sets@.len() as int) =~= sets@);
    }
    Result::Ok(
        MergeOutcome { names: new_names, sets: new_sets, rows_affected: moved as u64 },
    )
}

/// What resolving a set entry's exercise name does to the name table: the
/// identifier to file the entry under, creating the name with the entry's
/// kind when it is new, or the error when the name exists with the other
/// kind.
pub open spec fn spec_resolve_name(
    names: Seq<(i32, Seq<char>, ExerciseKind)>,
    name: Seq<char>,
    kind: ExerciseKind,
) -> Result<(Seq<(i32, Seq<char>, ExerciseKind)>, i32), AppError> {
    match spec_find_name(names, name) {
        Option::Some(i) => if names[i].2 != kind {
            Result::Err(AppError::ValidationError)
        } else {
            Result::Ok((names, names[i].0))
        },
        Option::None => {
            let new_id = (spec_max_id(names) + 1) as i32;
            Result::Ok((names.push((new_id, name, kind)), new_id))
        },
    }
}

/// The name table after filing a new set entry, and the identifier the entry
/// references.
#[derive(Debug)]
pub struct NameResolution {
    pub names: Vec<ExerciseNameRow>,
    pub name_id: i32,
}

/// Resolve the exercise name a new set entry names: reuse the existing
/// record when its kind matches, reject the entry when it does not, and
/// create the record with the entry's kind and a fresh identifier when the
/// name is new. On failure the given table is unchanged for the caller.
pub fn get_or_create_name(
    names: Vec<ExerciseNameRow>,
    name: &str,
    kind: ExerciseKind,
) -> (r: Result<NameResolution, AppError>)
    requires
        spec_max_id(names_view(names@)) < i32::MAX as int,
    ensures
        match r {
            Result::Ok(out) => {
                &&& spec_resolve_name(names_view(names@), name@, kind) is Ok
                &&& {
                    let ok = spec_resolve_name(names_view(names@), name@, kind)->Ok_0;
                    &&& names_view(out.names@) == ok.0
                    &&& out.name_id == ok.1
                }
            },
            Result::Err(e) => spec_resolve_name(names_view(names@), name@, kind) == Result::<
                (Seq<(i32, Seq<char>, ExerciseKind)>, i32),
                AppError,
            >::Err(e),
        },
{
    let ghost nv = names_view(names@);
    match find_name(&names, name) {
        Option::Some(i) => {
            proof {
                lemma_find_name_found(nv, name@);
                assert(nv[i as int] == name_row_view(names@[i as int]));
            }
            if names[i].kind != kind {
                return Result::Err(AppError::ValidationError);
            }
            let name_id = names[i].id;
            Result::Ok(NameResolution { names, name_id })
        },
        Option::None => {
            let m = max_name_id(&names);
            let new_id = m + 1;
            let mut names = names;
            let ghost pre = names@;
            names.push(ExerciseNameRow { id: new_id, name: name.to_owned(), kind });
            proof {
                assert(names_view(names@) =~~= nv.push((new_id, name@, kind))) by {
                    assert forall|k: int| 0 <= k < names@.len() implies names_view(names@)[k]
                        == nv.push((new_id, name@, kind))[k] by {
                        assert(names_view(names@)[k] == name_row_view(names@[k]));
                        if k < pre.len() {
                            assert(nv[k] == name_row_view(pre[k]));
                        }
                    }
                }
            }
            Result::Ok(NameResolution { names, name_id: new_id })
        },
    }
}

} // verus!
