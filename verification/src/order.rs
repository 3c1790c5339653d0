//! Ordering machinery shared by the aggregation passes: a specification-level
//! insertion sort parameterised by a strict "comes before" relation, adjacent
//! de-duplication, and the lemmas relating them that the record queries use.

use vstd::prelude::*;

verus! {

/// `before(x, y)` reads "x must be placed strictly before y".
/// A sequence is sorted when no later element must come before an earlier one.
pub open spec fn sorted_by_before<A>(s: Seq<A>, before: spec_fn(A, A) -> bool) -> bool {
    forall|i: int, j: int| 0 <= i < j < s.len() ==> !before(s[j], s[i])
}

/// A sequence is strictly sorted when every earlier element must come before
/// every later one; such a sequence repeats no element.
pub open spec fn strictly_sorted_by<A>(s: Seq<A>, before: spec_fn(A, A) -> bool) -> bool {
    forall|i: int, j: int| 0 <= i < j < s.len() ==> before(s[i], s[j])
}

/// The relation is irreflexive and transitive.
pub open spec fn is_strict_order<A>(before: spec_fn(A, A) -> bool) -> bool {
    &&& forall|x: A| !(#[trigger] before(x, x))
    &&& forall|x: A, y: A, z: A| before(x, y) && #[trigger] before(y, z) ==> #[trigger] before(x, z)
}

/// A strict order that leaves no two distinct elements unordered, so sorting
/// by it admits exactly one sorted arrangement of any multiset of elements.
pub open spec fn is_strict_total_order<A>(before: spec_fn(A, A) -> bool) -> bool {
    &&& is_strict_order(before)
    &&& forall|x: A, y: A| !before(x, y) && !(#[trigger] before(y, x)) ==> x == y
}

/// Insert `x` into `s` behind every element that does not have to come after
/// it: ties keep the already-present element first, which makes the sort
/// below stable.
pub open spec fn insert_before<A>(s: Seq<A>, x: A, before: spec_fn(A, A) -> bool) -> Seq<A>
    decreases s.len(),
{
    if s.len() == 0 {
        seq![x]
    } else if before(x, s[0]) {
        seq![x] + s
    } else {
        seq![s[0]] + insert_before(s.drop_first(), x, before)
    }
}

/// Stable insertion sort of `s` under `before`.
pub open spec fn sort_by_before<A>(s: Seq<A>, before: spec_fn(A, A) -> bool) -> Seq<A>
    decreases s.len(),
{
    if s.len() == 0 {
        Seq::empty()
    } else {
        insert_before(sort_by_before(s.drop_last(), before), s.last(), before)
    }
}

/// Remove every element that equals its successor, keeping the tail element
/// of each run of equal values.
pub open spec fn dedup_adjacent<A>(s: Seq<A>) -> Seq<A>
    decreases s.len(),
{
    if s.len() <= 1 {
        s
    } else if s[0] == s[1] {
        dedup_adjacent(s.drop_first())
    } else {
        seq![s[0]] + dedup_adjacent(s.drop_first())
    }
}

pub proof fn lemma_insert_before_len<A>(s: Seq<A>, x: A, before: spec_fn(A, A) -> bool)
    ensures
        insert_before(s, x, before).len() == s.len() + 1,
    decreases s.len(),
{
    if s.len() != 0 && !before(x, s[0]) {
        lemma_insert_before_len(s.drop_first(), x, before);
    }
}

pub proof fn lemma_insert_before_contains<A>(s: Seq<A>, x: A, before: spec_fn(A, A) -> bool)
    ensures
        forall|y: A|
            #[trigger] insert_before(s, x, before).contains(y) <==> s.contains(y) || y == x,
    decreases s.len(),
{
    broadcast use vstd::seq_lib::lemma_seq_concat_contains_all_elements;

    let r = insert_before(s, x, before);
    if s.len() == 0 {
        assert(r[0] == x);
        assert forall|y: A| #[trigger] r.contains(y) implies s.contains(y) || y == x by {
            let i = choose|i: int| 0 <= i < r.len() && r[i] == y;
        }
        assert(r.contains(x));
    } else if before(x, s[0]) {
        assert(seq![x].contains(x)) by {
            assert(seq![x][0] == x);
        }
        assert forall|y: A| seq![x].contains(y) implies y == x by {
            let i = choose|i: int| 0 <= i < 1 && seq![x][i] == y;
        }
    } else {
        lemma_insert_before_contains(s.drop_first(), x, before);
        let t = insert_before(s.drop_first(), x, before);
        assert(r == seq![s[0]] + t);
        assert forall|y: A| seq![s[0]].contains(y) implies y == s[0] by {
            let i = choose|i: int| 0 <= i < 1 && seq![s[0]][i] == y;
        }
        assert forall|y: A| #[trigger] r.contains(y) implies s.contains(y) || y == x by {
            assert((seq![s[0]] + t).contains(y));
            if seq![s[0]].contains(y) {
                assert(s[0] == y);
                assert(s.contains(y));
            } else {
                assert(t.contains(y));
                if s.drop_first().contains(y) {
                    let i = choose|i: int|
                        0 <= i < s.drop_first().len() && s.drop_first()[i] == y;
                    assert(s[i + 1] == y);
                    assert(s.contains(y));
                }
            }
        }
        assert forall|y: A| s.contains(y) || y == x implies #[trigger] r.contains(y) by {
            if y == x {
                assert(t.contains(y));
            } else {
                let i = choose|i: int| 0 <= i < s.len() && s[i] == y;
                if i == 0 {
                    assert(seq![s[0]][0] == y);
                    assert(seq![s[0]].contains(y));
                } else {
                    assert(s.drop_first()[i - 1] == y);
                    assert(s.drop_first().contains(y));
                    assert(t.contains(y));
                }
            }
            assert((seq![s[0]] + t).contains(y));
        }
    }
}

pub proof fn lemma_insert_before_sorted<A>(s: Seq<A>, x: A, before: spec_fn(A, A) -> bool)
    requires
        is_strict_order(before),
        sorted_by_before(s, before),
    ensures
        sorted_by_before(insert_before(s, x, before), before),
    decreases s.len(),
{
    let r = insert_before(s, x, before);
    if s.len() == 0 {
    } else if before(x, s[0]) {
        assert forall|i: int, j: int| 0 <= i < j < r.len() implies !before(r[j], r[i]) by {
            assert(r[0] == x);
            assert(forall|k: int| 1 <= k < r.len() ==> r[k] == s[k - 1]);
            if i == 0 {
                // if s[j-1] had to come before x it would also have to come
                // before s[0], contradicting sortedness of s.
                if before(r[j], x) {
                    assert(before(s[j - 1], s[0]));
                }
            }
        }
    } else {
        let t = insert_before(s.drop_first(), x, before);
        assert(sorted_by_before(s.drop_first(), before)) by {
            assert forall|i: int, j: int|
                0 <= i < j < s.drop_first().len() implies !before(
                #[trigger] s.drop_first()[j],
                #[trigger] s.drop_first()[i],
            ) by {
                assert(s.drop_first()[j] == s[j + 1] && s.drop_first()[i] == s[i + 1]);
            }
        }
        lemma_insert_before_sorted(s.drop_first(), x, before);
        lemma_insert_before_contains(s.drop_first(), x, before);
        lemma_insert_before_len(s.drop_first(), x, before);
        assert forall|i: int, j: int| 0 <= i < j < r.len() implies !before(r[j], r[i]) by {
            assert(r[0] == s[0]);
            assert(forall|k: int| 1 <= k < r.len() ==> r[k] == t[k - 1]);
            if i == 0 {
                // every element of t is x (not before s[0] by the branch) or
                // some s[k + 1] (not before s[0] since s is sorted).
                assert(t.contains(t[j - 1]));
                if t[j - 1] == x {
                } else {
                    assert(s.drop_first().contains(t[j - 1]));
                    let k = choose|k: int|
                        0 <= k < s.drop_first().len() && s.drop_first()[k] == t[j - 1];
                    assert(s[k + 1] == t[j - 1]);
                }
            }
        }
    }
}

/// `insert_before` places `x` at exactly the first position whose element `x`
/// must precede; this ties the executable scan-and-insert loop to the spec.
pub proof fn lemma_insert_before_at<A>(s: Seq<A>, x: A, before: spec_fn(A, A) -> bool, pos: int)
    requires
        0 <= pos <= s.len(),
        forall|k: int| 0 <= k < pos ==> !before(x, #[trigger] s[k]),
        pos < s.len() ==> before(x, s[pos]),
    ensures
        insert_before(s, x, before) == s.insert(pos, x),
    decreases s.len(),
{
    if s.len() == 0 {
        assert(insert_before(s, x, before) =~= s.insert(pos, x));
    } else if before(x, s[0]) {
        assert(pos == 0);
        assert(seq![x] + s =~= s.insert(0, x));
    } else {
        assert(pos >= 1);
        assert forall|k: int| 0 <= k < pos - 1 implies !before(x, #[trigger] s.drop_first()[k]) by {
            assert(s.drop_first()[k] == s[k + 1]);
        }
        assert(pos - 1 < s.drop_first().len() ==> before(x, s.drop_first()[pos - 1]));
        lemma_insert_before_at(s.drop_first(), x, before, pos - 1);
        assert(seq![s[0]] + s.drop_first().insert(pos - 1, x) =~= s.insert(pos, x));
    }
}

pub proof fn lemma_sort_by_before_len<A>(s: Seq<A>, before: spec_fn(A, A) -> bool)
    ensures
        sort_by_before(s, before).len() == s.len(),
    decreases s.len(),
{
    if s.len() != 0 {
        lemma_sort_by_before_len(s.drop_last(), before);
        lemma_insert_before_len(sort_by_before(s.drop_last(), before), s.last(), before);
    }
}

pub proof fn lemma_sort_by_before_contains<A>(s: Seq<A>, before: spec_fn(A, A) -> bool)
    ensures
        forall|y: A| #[trigger] sort_by_before(s, before).contains(y) <==> s.contains(y),
    decreases s.len(),
{
    if s.len() != 0 {
        lemma_sort_by_before_contains(s.drop_last(), before);
        lemma_insert_before_contains(sort_by_before(s.drop_last(), before), s.last(), before);
        assert forall|y: A| s.drop_last().contains(y) || y == s.last() implies s.contains(y) by {
            if y == s.last() {
                assert(s[s.len() - 1] == y);
            } else {
                let i = choose|i: int| 0 <= i < s.drop_last().len() && s.drop_last()[i] == y;
                assert(s[i] == y);
            }
        }
        assert forall|y: A| s.contains(y) implies s.drop_last().contains(y) || y == s.last() by {
            let i = choose|i: int| 0 <= i < s.len() && s[i] == y;
            if i < s.len() - 1 {
                assert(s.drop_last()[i] == y);
            }
        }
    }
}

pub proof fn lemma_sort_by_before_sorted<A>(s: Seq<A>, before: spec_fn(A, A) -> bool)
    requires
        is_strict_order(before),
    ensures
        sorted_by_before(sort_by_before(s, before), before),
    decreases s.len(),
{
    if s.len() != 0 {
        lemma_sort_by_before_sorted(s.drop_last(), before);
        lemma_insert_before_sorted(sort_by_before(s.drop_last(), before), s.last(), before);
    }
}

/// Appending an element commutes with adjacent de-duplication; this ties the
/// executable left-to-right loop to the spec.
pub proof fn lemma_dedup_adjacent_push<A>(s: Seq<A>, x: A)
    ensures
        dedup_adjacent(s.push(x)) == if s.len() > 0 && s.last() == x {
            dedup_adjacent(s)
        } else {
            dedup_adjacent(s).push(x)
        },
    decreases s.len(),
{
    if s.len() == 0 {
        assert(s.push(x) =~= seq![x]);
        assert(dedup_adjacent(s.push(x)) =~= dedup_adjacent(s).push(x));
    } else if s.len() == 1 {
        assert(s.push(x)[0] == s[0] && s.push(x)[1] == x);
        assert(s.push(x).drop_first() =~= seq![x]);
        if s[0] == x {
            assert(dedup_adjacent(s.push(x)) == dedup_adjacent(seq![x]));
            assert(dedup_adjacent(s) =~= seq![x]);
        } else {
            assert(dedup_adjacent(s.push(x)) == seq![s[0]] + dedup_adjacent(seq![x]));
            assert(seq![s[0]] + seq![x] =~= dedup_adjacent(s).push(x));
        }
    } else {
        assert(s.push(x)[0] == s[0] && s.push(x)[1] == s[1]);
        assert(s.push(x).drop_first() =~= s.drop_first().push(x));
        lemma_dedup_adjacent_push(s.drop_first(), x);
        assert(s.drop_first().last() == s.last());
        assert(s.drop_first().len() > 0);
        if s[0] == s[1] {
            assert(dedup_adjacent(s.push(x)) == dedup_adjacent(s.drop_first().push(x)));
        } else {
            assert(dedup_adjacent(s.push(x)) == seq![s[0]] + dedup_adjacent(
                s.drop_first().push(x),
            ));
            if s.last() == x {
            } else {
                assert(seq![s[0]] + dedup_adjacent(s.drop_first()).push(x) =~= (seq![s[0]]
                    + dedup_adjacent(s.drop_first())).push(x));
            }
        }
    }
}

pub proof fn lemma_dedup_adjacent_contains<A>(s: Seq<A>)
    ensures
        forall|y: A| #[trigger] dedup_adjacent(s).contains(y) <==> s.contains(y),
    decreases s.len(),
{
    broadcast use vstd::seq_lib::lemma_seq_concat_contains_all_elements;

    if s.len() <= 1 {
    } else {
        lemma_dedup_adjacent_contains(s.drop_first());
        let t = dedup_adjacent(s.drop_first());
        assert forall|y: A| seq![s[0]].contains(y) implies y == s[0] by {
            let i = choose|i: int| 0 <= i < 1 && seq![s[0]][i] == y;
        }
        assert forall|y: A| #[trigger] dedup_adjacent(s).contains(y) implies s.contains(y) by {
            if s[0] == s[1] {
                assert(t.contains(y));
            } else {
                assert((seq![s[0]] + t).contains(y));
            }
            if seq![s[0]].contains(y) && s[0] != s[1] {
                assert(s[0] == y);
                assert(s.contains(y));
            } else {
                assert(t.contains(y));
                assert(s.drop_first().contains(y));
                let i = choose|i: int|
                    0 <= i < s.drop_first().len() && s.drop_first()[i] == y;
                assert(s[i + 1] == y);
                assert(s.contains(y));
            }
        }
        assert forall|y: A| s.contains(y) implies #[trigger] dedup_adjacent(s).contains(y) by {
            let i = choose|i: int| 0 <= i < s.len() && s[i] == y;
            if i == 0 && s[0] != s[1] {
                assert(seq![s[0]][0] == y);
                assert(seq![s[0]].contains(y));
                assert((seq![s[0]] + t).contains(y));
            } else {
                if i == 0 {
                    assert(s.drop_first()[0] == s[1]);
                    assert(s[1] == y);
                    assert(s.drop_first().contains(y));
                } else {
                    assert(s.drop_first()[i - 1] == y);
                    assert(s.drop_first().contains(y));
                }
                assert(t.contains(y));
                if s[0] != s[1] {
                    assert((seq![s[0]] + t).contains(y));
                }
            }
        }
    }
}

/// De-duplicating a sorted sequence under a strict total order leaves a
/// strictly sorted sequence, hence one without repetitions.
pub proof fn lemma_dedup_adjacent_strictly_sorted<A>(s: Seq<A>, before: spec_fn(A, A) -> bool)
    requires
        is_strict_total_order(before),
        sorted_by_before(s, before),
    ensures
        strictly_sorted_by(dedup_adjacent(s), before),
    decreases s.len(),
{
    if s.len() <= 1 {
    } else {
        let d = dedup_adjacent(s);
        assert(sorted_by_before(s.drop_first(), before)) by {
            assert forall|i: int, j: int|
                0 <= i < j < s.drop_first().len() implies !before(
                #[trigger] s.drop_first()[j],
                #[trigger] s.drop_first()[i],
            ) by {
                assert(s.drop_first()[j] == s[j + 1] && s.drop_first()[i] == s[i + 1]);
            }
        }
        lemma_dedup_adjacent_strictly_sorted(s.drop_first(), before);
        if s[0] == s[1] {
        } else {
            let t = dedup_adjacent(s.drop_first());
            lemma_dedup_adjacent_contains(s.drop_first());
            // s[0] must come before s[1] (sorted, unequal, total), and no
            // later element may come before s[1], so s[0] precedes them all.
            assert(before(s[0], s[1]));
            assert forall|i: int, j: int| 0 <= i < j < d.len() implies before(d[i], d[j]) by {
                assert(d[0] == s[0]);
                assert(forall|k: int| 1 <= k < d.len() ==> d[k] == t[k - 1]);
                if i == 0 {
                    assert(t.contains(t[j - 1]));
                    assert(s.drop_first().contains(t[j - 1]));
                    let k = choose|k: int|
                        0 <= k < s.drop_first().len() && s.drop_first()[k] == t[j - 1];
                    assert(s[k + 1] == t[j - 1]);
                    if k + 1 > 1 {
                        assert(!before(s[k + 1], s[1]));
                        if !before(s[0], t[j - 1]) {
                            if before(t[j - 1], s[0]) {
                                assert(before(s[k + 1], s[1]));
                            } else {
                                assert(s[0] == t[j - 1]);
                                assert(before(t[j - 1], s[1]));
                                assert(!before(s[k + 1], s[1]));
                            }
                        }
                    }
                }
            }
        }
    }
}

/// A strictly sorted sequence has no duplicate entries.
pub proof fn lemma_strictly_sorted_no_duplicates<A>(s: Seq<A>, before: spec_fn(A, A) -> bool)
    requires
        is_strict_order(before),
        strictly_sorted_by(s, before),
    ensures
        s.no_duplicates(),
{
    assert forall|i: int, j: int|
        0 <= i < s.len() && 0 <= j < s.len() && i != j implies s[i] != s[j] by {
        if i < j {
            assert(before(s[i], s[j]));
        } else {
            assert(before(s[j], s[i]));
        }
    }
}

} // verus!
