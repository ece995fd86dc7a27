//! Matching the functions of two profiles by name (the timings are compared
//! where floating point is available).

use crate::text::chars_eq;
use vstd::prelude::*;

verus! {

/// Position of the first `x` in `v`.
pub open spec fn first_index(v: Seq<Seq<char>>, x: Seq<char>) -> Option<nat>
    decreases v.len(),
{
    if v.len() == 0 {
        None
    } else {
        match first_index(v.drop_last(), x) {
            Some(i) => Some(i),
            None => if v.last() == x {
                Some((v.len() - 1) as nat)
            } else {
                None
            },
        }
    }
}

pub open spec fn name_views(v: Seq<String>) -> Seq<Seq<char>> {
    v.map_values(|s: String| s@)
}

/// Position of the first name in `names` equal to `name`.
pub fn find_name(names: &Vec<String>, name: &String) -> (r: Option<usize>)
    ensures
        match (r, first_index(name_views(names@), name@)) {
            (Some(a), Some(b)) => a == b,
            (None, None) => true,
            _ => false,
        },
{
    let x = crate::text::to_chars(name.as_str());
    let mut i: usize = 0;
    while i < names.len()
        invariant
            i <= names.len(),
            x@ == name@,
            first_index(name_views(names@).take(i as int), name@) is None,
        decreases names.len() - i,
    {
        let y = crate::text::to_chars(names[i].as_str());
        proof {
            assert(name_views(names@).take(i + 1).drop_last() == name_views(names@).take(i as int));
            assert(name_views(names@).take(i + 1).last() == names@[i as int]@);
        }
        if chars_eq(&y, &x) {
            proof {
                lemma_first_index_prefix(name_views(names@), i + 1, name@);
            }
            return Some(i);
        }
        i += 1;
    }
    proof {
        assert(name_views(names@).take(names.len() as int) == name_views(names@));
    }
    None
}

proof fn lemma_first_index_prefix(v: Seq<Seq<char>>, k: int, x: Seq<char>)
    requires
        0 <= k <= v.len(),
        first_index(v.take(k), x) is Some,
    ensures
        first_index(v, x) == first_index(v.take(k), x),
    decreases v.len() - k,
{
    if k < v.len() {
        assert(v.take(k + 1).drop_last() == v.take(k));
        lemma_first_index_prefix(v, k + 1, x);
    } else {
        assert(v.take(k) == v);
    }
}

/// The rows of a comparison, as positions in the base and target profiles:
/// each base function in order with the first target function of the same
/// name (if any), then each target function whose name is not in the base.
pub open spec fn pairs_spec(base: Seq<Seq<char>>, target: Seq<Seq<char>>) -> Seq<(Option<nat>, Option<nat>)> {
    Seq::new(base.len(), |i: int| (Some(i as nat), first_index(target, base[i])))
        + target_only(base, target)
}

/// The target functions whose name is not in the base, in order.
pub open spec fn target_only(base: Seq<Seq<char>>, target: Seq<Seq<char>>) -> Seq<(Option<nat>, Option<nat>)>
    decreases target.len(),
{
    if target.len() == 0 {
        Seq::empty()
    } else {
        let rest = target_only(base, target.drop_last());
        if base.contains(target.last()) {
            rest
        } else {
            rest.push((None, Some((target.len() - 1) as nat)))
        }
    }
}

pub open spec fn pair_view(p: (Option<usize>, Option<usize>)) -> (Option<nat>, Option<nat>) {
    (
        match p.0 {
            Some(a) => Some(a as nat),
            None => None,
        },
        match p.1 {
            Some(b) => Some(b as nat),
            None => None,
        },
    )
}

pub open spec fn pair_views(r: Seq<(Option<usize>, Option<usize>)>) -> Seq<(Option<nat>, Option<nat>)> {
    Seq::new(r.len(), |i: int| pair_view(r[i]))
}

/// Pairs the functions of two profiles by name.
pub fn function_pairs(base: &Vec<String>, target: &Vec<String>) -> (r: Vec<(Option<usize>, Option<usize>)>)
    ensures
        pair_views(r@) == pairs_spec(
            name_views(base@),
            name_views(target@),
        ),
{
    let ghost bv = name_views(base@);
    let ghost tv = name_views(target@);
    let mut r: Vec<(Option<usize>, Option<usize>)> = Vec::new();
    let mut i: usize = 0;
    while i < base.len()
        invariant
            i <= base.len(),
            bv == name_views(base@),
            tv == name_views(target@),
            pair_views(r@) == Seq::new(
                i as nat,
                |k: int| (Some(k as nat), first_index(tv, bv[k])),
            ),
        decreases base.len() - i,
    {
        let j = find_name(target, &base[i]);
        let ghost before = r@;
        r.push((Some(i), j));
        proof {
            lemma_pair_views_push(before, (Some(i), j));
            assert(bv[i as int] == base@[i as int]@);
            assert(pair_view((Some(i), j)) == (Some(i as nat), first_index(tv, bv[i as int])));
            assert(pair_views(r@) =~= Seq::new(
                (i + 1) as nat,
                |k: int| (Some(k as nat), first_index(tv, bv[k])),
            ));
        }
        i += 1;
    }
    let ghost head = pair_views(r@);
    let mut j: usize = 0;
    assert(tv.take(0) == Seq::<Seq<char>>::empty());
    while j < target.len()
        invariant
            j <= target.len(),
            bv == name_views(base@),
            tv == name_views(target@),
            pair_views(r@) == head + target_only(
                bv,
                tv.take(j as int),
            ),
        decreases target.len() - j,
    {
        let found = find_name(base, &target[j]);
        proof {
            assert(tv.take(j + 1).drop_last() == tv.take(j as int));
            assert(tv.take(j + 1).last() == tv[j as int]);
            lemma_first_index_contains(bv, tv[j as int]);
        }
        if found.is_none() {
            let ghost before = r@;
            r.push((None, Some(j)));
            proof {
                lemma_pair_views_push(before, (None, Some(j)));
                assert(pair_views(r@) =~= head
                    + target_only(bv, tv.take(j as int)).push((None, Some(j as nat))));
            }
        }
        j += 1;
    }
    assert(tv.take(target.len() as int) == tv);
    r
}

proof fn lemma_pair_views_push(r: Seq<(Option<usize>, Option<usize>)>, x: (Option<usize>, Option<usize>))
    ensures
        pair_views(r.push(x)) == pair_views(r).push(pair_view(x)),
{
    assert(pair_views(r.push(x)) =~= pair_views(r).push(pair_view(x)));
}

/// A name has a first position in `v` exactly when `v` contains it.
pub proof fn lemma_first_index_contains(v: Seq<Seq<char>>, x: Seq<char>)
    ensures
        first_index(v, x) is Some <==> v.contains(x),
    decreases v.len(),
{
    if v.len() > 0 {
        lemma_first_index_contains(v.drop_last(), x);
        if v.contains(x) {
            let k = choose|k: int| 0 <= k < v.len() && v[k] == x;
            if k < v.len() - 1 {
                assert(v.drop_last()[k] == x);
            }
        }
        if v.drop_last().contains(x) {
            let k = choose|k: int| 0 <= k < v.drop_last().len() && v.drop_last()[k] == x;
            assert(v[k] == x);
        }
        if v.last() == x {
            assert(v[v.len() - 1] == x);
        }
    }
}

/// `name` shortened for a table column: more than 18 characters become the
/// first 16 followed by `..`.
pub open spec fn short_name(name: Seq<char>) -> Seq<char> {
    if name.len() > 18 {
        name.take(16) + seq!['.', '.']
    } else {
        name
    }
}

/// Shortens a function name for the comparison table.
pub fn shorten_name(name: &str) -> (s: String)
    ensures
        s@ == short_name(name@),
{
    let cs = crate::text::to_chars(name);
    if cs.len() > 18 {
        let mut s = String::new();
        crate::text::push_range(&mut s, &cs, 0, 16);
        crate::text::push_char(&mut s, '.');
        crate::text::push_char(&mut s, '.');
        assert(cs@.subrange(0, 16) == name@.take(16));
        s
    } else {
        String::from_str(name)
    }
}

} // verus!
