//! Grouping of rows by exercise name. Groups are kept in alphabetical order
//! throughout, so the response needs no separate sorting pass, and each
//! group's payloads stay in arrival order.

use vstd::prelude::*;

use crate::strings::lemma_lex_lt_connected;
use crate::strings::lemma_lex_lt_irreflexive;
use crate::strings::lemma_lex_lt_transitive;
use crate::strings::lex_lt;
use crate::strings::str_eq;
use crate::strings::str_lt;

verus! {

/// The mathematical content of an in-progress grouping: each group is a name
/// and the payloads collected under it.
pub open spec fn groups_view<T>(g: Seq<(String, Vec<T>)>) -> Seq<(Seq<char>, Seq<T>)> {
    g.map_values(|p: (String, Vec<T>)| (p.0@, p.1@))
}

/// The group names, in presentation order.
pub open spec fn group_names<T>(gs: Seq<(Seq<char>, Seq<T>)>) -> Seq<Seq<char>> {
    gs.map_values(|g: (Seq<char>, Seq<T>)| g.0)
}

/// Group names appear in strictly increasing alphabetical order, so each
/// name occurs at most once.
pub open spec fn names_strictly_sorted<T>(gs: Seq<(Seq<char>, Seq<T>)>) -> bool {
    forall|i: int, j: int| 0 <= i < j < gs.len() ==> lex_lt(gs[i].0, gs[j].0)
}

/// File payload `e` under `name`: append it to the group of that name, or
/// open a new group at the alphabetical position of the name.
pub open spec fn spec_insert_entry<T>(
    gs: Seq<(Seq<char>, Seq<T>)>,
    name: Seq<char>,
    e: T,
) -> Seq<(Seq<char>, Seq<T>)>
    decreases gs.len(),
{
    if gs.len() == 0 {
        seq![(name, seq![e])]
    } else if gs[0].0 == name {
        seq![(gs[0].0, gs[0].1.push(e))] + gs.drop_first()
    } else if lex_lt(name, gs[0].0) {
        seq![(name, seq![e])] + gs
    } else {
        seq![gs[0]] + spec_insert_entry(gs.drop_first(), name, e)
    }
}

/// Characterise `spec_insert_entry` by the position the executable scan
/// stops at: the first group whose name is not below the new name.
pub proof fn lemma_insert_entry_at<T>(
    gs: Seq<(Seq<char>, Seq<T>)>,
    name: Seq<char>,
    e: T,
    pos: int,
)
    requires
        0 <= pos <= gs.len(),
        forall|k: int| 0 <= k < pos ==> lex_lt(#[trigger] gs[k].0, name),
        pos < gs.len() ==> !lex_lt(gs[pos].0, name),
    ensures
        spec_insert_entry(gs, name, e) == if pos < gs.len() && gs[pos].0 == name {
            gs.update(pos, (gs[pos].0, gs[pos].1.push(e)))
        } else {
            gs.insert(pos, (name, seq![e]))
        },
    decreases gs.len(),
{
    if gs.len() == 0 {
        assert(spec_insert_entry(gs, name, e) =~~= gs.insert(0, (name, seq![e])));
    } else if gs[0].0 == name {
        assert(pos == 0) by {
            if pos > 0 {
                lemma_lex_lt_irreflexive(name);
            }
        }
        assert(seq![(gs[0].0, gs[0].1.push(e))] + gs.drop_first() =~~= gs.update(
            0,
            (gs[0].0, gs[0].1.push(e)),
        ));
    } else if lex_lt(name, gs[0].0) {
        assert(pos == 0) by {
            if pos > 0 {
                lemma_lex_lt_transitive(name, gs[0].0, name);
                lemma_lex_lt_irreflexive(name);
            }
        }
        assert(seq![(name, seq![e])] + gs =~~= gs.insert(0, (name, seq![e])));
    } else {
        assert(lex_lt(gs[0].0, name)) by {
            if !lex_lt(gs[0].0, name) {
                lemma_lex_lt_connected(gs[0].0, name);
            }
        }
        assert(pos >= 1) by {
            if pos == 0 {
                assert(!lex_lt(gs[pos].0, name));
            }
        }
        assert forall|k: int| 0 <= k < pos - 1 implies lex_lt(
            #[trigger] gs.drop_first()[k].0,
            name,
        ) by {
            assert(gs.drop_first()[k] == gs[k + 1]);
        }
        assert(pos - 1 < gs.drop_first().len() ==> !lex_lt(gs.drop_first()[pos - 1].0, name));
        lemma_insert_entry_at(gs.drop_first(), name, e, pos - 1);
        if pos < gs.len() && gs[pos].0 == name {
            assert(gs.drop_first()[pos - 1] == gs[pos]);
            assert(seq![gs[0]] + gs.drop_first().update(pos - 1, (gs[pos].0, gs[pos].1.push(e)))
                =~~= gs.update(pos, (gs[pos].0, gs[pos].1.push(e))));
        } else {
            assert(seq![gs[0]] + gs.drop_first().insert(pos - 1, (name, seq![e])) =~~= gs.insert(
                pos,
                (name, seq![e]),
            ));
        }
    }
}

/// Filing an entry keeps the groups alphabetically ordered.
pub proof fn lemma_insert_entry_sorted<T>(gs: Seq<(Seq<char>, Seq<T>)>, name: Seq<char>, e: T)
    requires
        names_strictly_sorted(gs),
    ensures
        names_strictly_sorted(spec_insert_entry(gs, name, e)),
    decreases gs.len(),
{
    let r = spec_insert_entry(gs, name, e);
    if gs.len() == 0 {
    } else if gs[0].0 == name {
        assert forall|i: int, j: int| 0 <= i < j < r.len() implies lex_lt(r[i].0, r[j].0) by {
            assert(r[i] == if i == 0 {
                (gs[0].0, gs[0].1.push(e))
            } else {
                gs[i]
            });
            assert(r[j] == gs[j]);
        }
    } else if lex_lt(name, gs[0].0) {
        assert forall|i: int, j: int| 0 <= i < j < r.len() implies lex_lt(r[i].0, r[j].0) by {
            assert(forall|k: int| 1 <= k < r.len() ==> r[k] == gs[k - 1]);
            if i == 0 && j > 1 {
                lemma_lex_lt_transitive(name, gs[0].0, gs[j - 1].0);
            }
        }
    } else {
        assert(lex_lt(gs[0].0, name)) by {
            if !lex_lt(gs[0].0, name) {
                lemma_lex_lt_connected(gs[0].0, name);
            }
        }
        assert(sub_sorted(gs)) by {
            reveal_sub_sorted_helper(gs);
        }
        lemma_insert_entry_sorted(gs.drop_first(), name, e);
        let t = spec_insert_entry(gs.drop_first(), name, e);
        lemma_insert_entry_names(gs.drop_first(), name, e);
        assert forall|i: int, j: int| 0 <= i < j < r.len() implies lex_lt(r[i].0, r[j].0) by {
            assert(r[0] == gs[0]);
            assert(forall|k: int| 1 <= k < r.len() ==> r[k] == t[k - 1]);
            if i == 0 {
                // the later group's name is either the inserted name (above
                // gs[0].0 by this branch) or one already above it.
                assert(t.contains(t[j - 1]));
                if t[j - 1].0 == name {
                    assert(lex_lt(gs[0].0, name));
                } else {
                    assert(group_names(t)[j - 1] == t[j - 1].0);
                    assert(group_names(t).contains(t[j - 1].0));
                    assert(group_names(gs.drop_first()).contains(t[j - 1].0));
                    let k = choose|k: int|
                        0 <= k < group_names(gs.drop_first()).len() && group_names(
                            gs.drop_first(),
                        )[k] == t[j - 1].0;
                    assert(gs.drop_first()[k].0 == t[j - 1].0);
                    assert(gs.drop_first()[k] == gs[k + 1]);
                    assert(lex_lt(gs[0].0, gs[k + 1].0));
                }
            }
        }
    }
}

/// The names of the sub-grouping (dropping the first group) stay sorted.
spec fn sub_sorted<T>(gs: Seq<(Seq<char>, Seq<T>)>) -> bool {
    names_strictly_sorted(gs.drop_first())
}

proof fn reveal_sub_sorted_helper<T>(gs: Seq<(Seq<char>, Seq<T>)>)
    requires
        names_strictly_sorted(gs),
        gs.len() > 0,
    ensures
        sub_sorted(gs),
{
    assert forall|i: int, j: int| 0 <= i < j < gs.drop_first().len() implies lex_lt(
        #[trigger] gs.drop_first()[i].0,
        #[trigger] gs.drop_first()[j].0,
    ) by {
        assert(gs.drop_first()[i] == gs[i + 1] && gs.drop_first()[j] == gs[j + 1]);
    }
}

/// After filing, a name heads a group exactly when it was already a group's
/// name or is the one just filed.
pub proof fn lemma_insert_entry_names<T>(gs: Seq<(Seq<char>, Seq<T>)>, name: Seq<char>, e: T)
    ensures
        forall|n: Seq<char>|
            #[trigger] group_names(spec_insert_entry(gs, name, e)).contains(n) <==> group_names(
                gs,
            ).contains(n) || n == name,
    decreases gs.len(),
{
    let r = spec_insert_entry(gs, name, e);
    if gs.len() == 0 {
        assert forall|n: Seq<char>| #[trigger] group_names(r).contains(n) implies group_names(
            gs,
        ).contains(n) || n == name by {
            let i = choose|i: int| 0 <= i < r.len() && group_names(r)[i] == n;
        }
        assert(group_names(r)[0] == name);
        assert(group_names(r).contains(name));
    } else if gs[0].0 == name {
        assert forall|n: Seq<char>| #[trigger] group_names(r).contains(n) implies group_names(
            gs,
        ).contains(n) || n == name by {
            let i = choose|i: int| 0 <= i < r.len() && group_names(r)[i] == n;
            if i > 0 {
                assert(r[i] == gs[i]);
                assert(group_names(gs)[i] == n);
            }
        }
        assert forall|n: Seq<char>| group_names(gs).contains(n) || n == name implies #[trigger]
            group_names(r).contains(n) by {
            if n == name {
                assert(group_names(r)[0] == n);
            } else {
                let i = choose|i: int| 0 <= i < gs.len() && #[trigger] group_names(gs)[i] == n;
                assert(r[i] == gs[i]);
                assert(group_names(r)[i] == n);
            }
        }
    } else if lex_lt(name, gs[0].0) {
        assert forall|n: Seq<char>| #[trigger] group_names(r).contains(n) implies group_names(
            gs,
        ).contains(n) || n == name by {
            let i = choose|i: int| 0 <= i < r.len() && group_names(r)[i] == n;
            if i > 0 {
                assert(r[i] == gs[i - 1]);
                assert(group_names(gs)[i - 1] == n);
            }
        }
        assert forall|n: Seq<char>| group_names(gs).contains(n) || n == name implies #[trigger]
            group_names(r).contains(n) by {
            if n == name {
                assert(group_names(r)[0] == n);
            } else {
                let i = choose|i: int| 0 <= i < gs.len() && #[trigger] group_names(gs)[i] == n;
                assert(r[i + 1] == gs[i]);
                assert(group_names(r)[i + 1] == n);
            }
        }
    } else {
        lemma_insert_entry_names(gs.drop_first(), name, e);
        let t = spec_insert_entry(gs.drop_first(), name, e);
        assert forall|n: Seq<char>| #[trigger] group_names(r).contains(n) implies group_names(
            gs,
        ).contains(n) || n == name by {
            let i = choose|i: int| 0 <= i < r.len() && group_names(r)[i] == n;
            if i == 0 {
                assert(r[0] == gs[0]);
                assert(group_names(gs)[0] == n);
            } else {
                assert(r[i] == t[i - 1]);
                assert(group_names(t)[i - 1] == n);
                assert(group_names(t).contains(n));
                if group_names(gs.drop_first()).contains(n) {
                    let k = choose|k: int|
                        0 <= k < gs.drop_first().len() && #[trigger] group_names(
                            gs.drop_first(),
                        )[k] == n;
                    assert(gs.drop_first()[k] == gs[k + 1]);
                    assert(group_names(gs)[k + 1] == n);
                }
            }
        }
        assert forall|n: Seq<char>| group_names(gs).contains(n) || n == name implies #[trigger]
            group_names(r).contains(n) by {
            if n == name {
                assert(group_names(t).contains(n));
                let k = choose|k: int| 0 <= k < t.len() && #[trigger] group_names(t)[k] == n;
                assert(r[k + 1] == t[k]);
                assert(group_names(r)[k + 1] == n);
            } else {
                let i = choose|i: int| 0 <= i < gs.len() && #[trigger] group_names(gs)[i] == n;
                if i == 0 {
                    assert(group_names(r)[0] == n);
                } else {
                    assert(gs.drop_first()[i - 1] == gs[i]);
                    assert(group_names(gs.drop_first())[i - 1] == n);
                    assert(group_names(gs.drop_first()).contains(n));
                    assert(group_names(t).contains(n));
                    let k = choose|k: int| 0 <= k < t.len() && #[trigger] group_names(t)[k] == n;
                    assert(r[k + 1] == t[k]);
                    assert(group_names(r)[k + 1] == n);
                }
            }
        }
    }
}

/// File one payload under its name in the running group list.
pub fn insert_entry<T>(groups: &mut Vec<(String, Vec<T>)>, name: String, e: T)
    ensures
        groups_view(final(groups)@) == spec_insert_entry(groups_view(old(groups)@), name@, e),
{
    let ghost gv = groups_view(old(groups)@);
    let mut j: usize = 0;
    while j < groups.len() && str_lt(groups[j].0.as_str(), name.as_str())
        invariant
            j <= groups.len(),
            groups@ == old(groups)@,
            forall|k: int| 0 <= k < j ==> lex_lt(#[trigger] groups_view(groups@)[k].0, name@),
        decreases groups.len() - j,
    {
        proof {
            assert(groups_view(groups@)[j as int].0 == groups@[j as int].0@);
        }
        j = j + 1;
    }
    proof {
        assert(j < groups@.len() ==> !lex_lt(gv[j as int].0, name@)) by {
            if j < groups@.len() {
                assert(groups_view(groups@)[j as int].0 == groups@[j as int].0@);
            }
        }
        lemma_insert_entry_at(gv, name@, e, j as int);
    }
    if j < groups.len() && str_eq(groups[j].0.as_str(), name.as_str()) {
        let (nm, mut es) = groups.remove(j);
        es.push(e);
        groups.insert(j, (nm, es));
        proof {
            assert(groups_view(groups@) =~~= gv.update(j as int, (gv[j as int].0, gv[j as int].1.push(e))));
        }
    } else {
        let mut es: Vec<T> = Vec::new();
        es.push(e);
        groups.insert(j, (name, es));
        proof {
            assert(es@ =~= seq![e]);
            assert(groups_view(groups@) =~~= gv.insert(j as int, (name@, seq![e])));
        }
    }
}

} // verus!
