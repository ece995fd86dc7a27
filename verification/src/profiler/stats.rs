//! Gathering the functions of several runs (the statistics over their
//! timings are floating point and are computed by the caller).

use super::compare::{find_name, first_index, lemma_first_index_contains, name_views};
use vstd::prelude::*;

verus! {

/// `acc` followed by the names of `names` that are not in it yet, each once,
/// in the order in which they first occur.
pub open spec fn add_names(acc: Seq<Seq<char>>, names: Seq<Seq<char>>) -> Seq<Seq<char>>
    decreases names.len(),
{
    if names.len() == 0 {
        acc
    } else {
        let a = add_names(acc, names.drop_last());
        if a.contains(names.last()) {
            a
        } else {
            a.push(names.last())
        }
    }
}

/// Every function name of the runs, once each, in the order of first
/// appearance (run by run, row by row).
pub open spec fn names_in_order(runs: Seq<Seq<Seq<char>>>) -> Seq<Seq<char>>
    decreases runs.len(),
{
    if runs.len() == 0 {
        Seq::empty()
    } else {
        add_names(names_in_order(runs.drop_last()), runs.last())
    }
}

/// The function names of each run, as character sequences.
pub open spec fn runs_view(runs: Seq<Vec<String>>) -> Seq<Seq<Seq<char>>> {
    Seq::new(runs.len(), |i: int| name_views(runs[i]@))
}

/// The names of all functions that occur in any run, without repetition, in
/// the order of first appearance.
pub fn function_names(runs: &Vec<Vec<String>>) -> (r: Vec<String>)
    ensures
        name_views(r@) == names_in_order(runs_view(runs@)),
{
    let ghost rv = runs_view(runs@);
    let mut r: Vec<String> = Vec::new();
    let mut p: usize = 0;
    while p < runs.len()
        invariant
            p <= runs.len(),
            rv == runs_view(runs@),
            name_views(r@) == names_in_order(rv.take(p as int)),
        decreases runs.len() - p,
    {
        let run = &runs[p];
        let ghost before = name_views(r@);
        let mut f: usize = 0;
        while f < run.len()
            invariant
                f <= run.len(),
                rv == runs_view(runs@),
                p < runs.len(),
                run == &runs[p as int],
                before == names_in_order(rv.take(p as int)),
                name_views(r@) == add_names(before, name_views(run@).take(f as int)),
            decreases run.len() - f,
        {
            let found = find_name(&r, &run[f]);
            let ghost nv = name_views(run@);
            proof {
                assert(nv.take(f + 1).drop_last() == nv.take(f as int));
                assert(nv.take(f + 1).last() == run@[f as int]@);
                lemma_first_index_contains(name_views(r@), run@[f as int]@);
            }
            if found.is_none() {
                let ghost old_r = r@;
                r.push(run[f].clone());
                proof {
                    assert(name_views(r@) =~= name_views(old_r).push(run@[f as int]@));
                }
            }
            f += 1;
        }
        proof {
            assert(name_views(run@).take(run.len() as int) == name_views(run@));
            assert(rv.take(p + 1).drop_last() == rv.take(p as int));
            assert(rv.take(p + 1).last() == name_views(run@));
        }
        p += 1;
    }
    proof {
        assert(rv.take(runs.len() as int) == rv);
    }
    r
}

proof fn lemma_add_names(acc: Seq<Seq<char>>, names: Seq<Seq<char>>)
    requires
        acc.no_duplicates(),
    ensures
        add_names(acc, names).no_duplicates(),
        forall|x: Seq<char>|
            add_names(acc, names).contains(x) <==> (acc.contains(x) || names.contains(x)),
    decreases names.len(),
{
    if names.len() > 0 {
        let d = names.drop_last();
        lemma_add_names(acc, d);
        let a = add_names(acc, d);
        assert forall|x: Seq<char>| names.contains(x) <==> (d.contains(x) || x == names.last()) by {
            if names.contains(x) {
                let k = choose|k: int| 0 <= k < names.len() && names[k] == x;
                if k < names.len() - 1 {
                    assert(d[k] == x);
                }
            }
            if d.contains(x) {
                let k = choose|k: int| 0 <= k < d.len() && d[k] == x;
                assert(names[k] == x);
            }
            if x == names.last() {
                assert(names[names.len() - 1] == x);
            }
        }
        if !a.contains(names.last()) {
            let b = a.push(names.last());
            assert forall|i: int, j: int| 0 <= i < b.len() && 0 <= j < b.len() && i != j implies b[i]
                != b[j] by {
                if i == a.len() as int {
                    assert(a[j] == b[j]);
                } else if j == a.len() as int {
                    assert(a[i] == b[i]);
                }
            }
            assert forall|x: Seq<char>| b.contains(x) <==> (a.contains(x) || x == names.last()) by {
                if b.contains(x) {
                    let k = choose|k: int| 0 <= k < b.len() && b[k] == x;
                    if k < a.len() {
                        assert(a[k] == x);
                    }
                }
                if a.contains(x) {
                    let k = choose|k: int| 0 <= k < a.len() && a[k] == x;
                    assert(b[k] == x);
                }
                if x == names.last() {
                    assert(b[a.len() as int] == x);
                }
            }
        }
    }
}

/// The gathered names hold no name twice, and hold exactly the names that
/// occur in some run.
pub proof fn lemma_names_in_order(runs: Seq<Seq<Seq<char>>>)
    ensures
        names_in_order(runs).no_duplicates(),
        forall|x: Seq<char>|
            names_in_order(runs).contains(x) <==> exists|i: int|
                0 <= i < runs.len() && #[trigger] runs[i].contains(x),
    decreases runs.len(),
{
    if runs.len() == 0 {
        assert(Seq::<Seq<char>>::empty().no_duplicates());
    } else {
        let d = runs.drop_last();
        lemma_names_in_order(d);
        lemma_add_names(names_in_order(d), runs.last());
        assert forall|x: Seq<char>|
            names_in_order(runs).contains(x) <==> exists|i: int|
                0 <= i < runs.len() && #[trigger] runs[i].contains(x) by {
            if exists|i: int| 0 <= i < runs.len() && #[trigger] runs[i].contains(x) {
                let i = choose|i: int| 0 <= i < runs.len() && #[trigger] runs[i].contains(x);
                if i < runs.len() - 1 {
                    assert(d[i].contains(x));
                } else {
                    assert(runs.last().contains(x));
                }
            }
            if runs.last().contains(x) {
                assert(runs[runs.len() - 1].contains(x));
            }
            if exists|i: int| 0 <= i < d.len() && #[trigger] d[i].contains(x) {
                let i = choose|i: int| 0 <= i < d.len() && #[trigger] d[i].contains(x);
                assert(runs[i].contains(x));
            }
        }
    }
}

} // verus!
