//! Which C functions get bound, and how: the decisions made for each function
//! prototype of a header, in the order libclang visits them.
//!
//! A function is left out when its name is empty, does not start with the
//! prefix filter, was already seen, or has no external linkage (a `static`
//! helper). Otherwise it is bound when its return type and all its parameter
//! types map to Qi types, and skipped with the first reason otherwise; variadic
//! functions are skipped. Parameters keep their C name when it is a fresh ASCII
//! identifier and are called `p0`, `p1`, ... otherwise. Both lists come out
//! sorted by name.

use super::ctypes::{
    classify_pointee, map_param, map_ret, result_is, spec_classify_pointee, spec_map_param,
    spec_map_ret, PointeeKind, CXType_Pointer,
};
use super::{BindgenResult, MappedFn, QiParamType, QiRetType, SkippedFn};
use crate::text::{
    chars_lt, chars_start_with, contains_chars, decimal, lemma_seq_lt_total, lemma_seq_lt_trans,
    push_decimal, seq_le, seq_lt, starts_with, to_chars, views,
};
use vstd::prelude::*;
use crate::text::chars_eq;

verus! {

/// A C type by libclang's canonical kinds.
#[derive(Debug, Clone, Copy)]
pub struct CType {
    /// Canonical kind of the type.
    pub kind: i32,
    /// Canonical kind of what the type points to; read only for pointers.
    pub pointee_kind: i32,
}

/// A parameter of a C function prototype.
#[derive(Debug, Clone)]
pub struct CParam {
    /// Its name in the header; empty when it has none.
    pub name: String,
    pub ty: CType,
}

/// A top-level C function prototype.
#[derive(Debug, Clone)]
pub struct CFunction {
    pub name: String,
    /// It has external linkage.
    pub external: bool,
    /// It takes `...`.
    pub variadic: bool,
    pub ret: CType,
    pub params: Vec<CParam>,
}

/// Options of header parsing.
#[derive(Debug, Clone)]
pub struct ParseOptions {
    /// Only functions whose name starts with this are exported.
    pub prefix: Option<String>,
    /// Extra arguments for clang (such as `-I/path`).
    pub clang_args: Vec<String>,
}

impl Default for ParseOptions {
    fn default() -> (o: Self)
        ensures
            o.prefix.is_none(),
            o.clang_args@.len() == 0,
    {
        ParseOptions { prefix: None, clang_args: Vec::new() }
    }
}

/// The kind of a type and, for a pointer, what it points to.
pub open spec fn spec_classify(t: CType) -> (i32, Option<PointeeKind>) {
    if t.kind == CXType_Pointer {
        (t.kind, Some(spec_classify_pointee(t.pointee_kind)))
    } else {
        (t.kind, None)
    }
}

/// The kind of a type and, for a pointer, what it points to.
pub fn classify(t: CType) -> (r: (i32, Option<PointeeKind>))
    ensures
        r == spec_classify(t),
{
    if t.kind == CXType_Pointer {
        (t.kind, Some(classify_pointee(t.pointee_kind)))
    } else {
        (t.kind, None)
    }
}

pub open spec fn is_ascii_alpha(c: char) -> bool {
    ('a' <= c && c <= 'z') || ('A' <= c && c <= 'Z')
}

pub open spec fn is_ascii_digit(c: char) -> bool {
    '0' <= c && c <= '9'
}

/// A non-empty ASCII identifier: a letter or `_`, then letters, digits or `_`.
pub open spec fn ascii_ident(s: Seq<char>) -> bool {
    &&& s.len() > 0
    &&& (is_ascii_alpha(s[0]) || s[0] == '_')
    &&& forall|i: int| 1 <= i < s.len() ==> #[trigger] is_ascii_alpha(s[i]) || is_ascii_digit(s[i]) || s[i] == '_'
}

/// Whether `s` is an ASCII identifier.
pub fn is_ascii_ident(s: &str) -> (b: bool)
    ensures
        b == ascii_ident(s@),
{
    let cs = to_chars(s);
    if cs.len() == 0 {
        return false;
    }
    let c0 = cs[0];
    if !(('a' <= c0 && c0 <= 'z') || ('A' <= c0 && c0 <= 'Z') || c0 == '_') {
        return false;
    }
    let mut i: usize = 1;
    while i < cs.len()
        invariant
            1 <= i <= cs.len(),
            cs@ == s@,
            forall|k: int|
                1 <= k < i ==> #[trigger] is_ascii_alpha(cs@[k]) || is_ascii_digit(cs@[k]) || cs@[k] == '_',
        decreases cs.len() - i,
    {
        let c = cs[i];
        if !(('a' <= c && c <= 'z') || ('A' <= c && c <= 'Z') || ('0' <= c && c <= '9') || c
            == '_') {
            assert(!(is_ascii_alpha(cs@[i as int]) || is_ascii_digit(cs@[i as int]) || cs@[i as int] == '_'));
            return false;
        }
        i += 1;
    }
    true
}

/// The name a parameter gets: its own when it is a fresh ASCII identifier,
/// `p<i>` otherwise.
pub open spec fn param_name(raw: Seq<char>, i: nat, used: Set<Seq<char>>) -> Seq<char> {
    if raw.len() > 0 && ascii_ident(raw) && !used.contains(raw) {
        raw
    } else {
        seq!['p'] + decimal(i)
    }
}

/// The parameters of `ps` from position `i` on with their Qi names and types,
/// or the reason of the first one that does not map.
pub open spec fn params_from(ps: Seq<CParam>, i: int, used: Set<Seq<char>>) -> Result<
    Seq<(Seq<char>, QiParamType)>,
    Seq<char>,
>
    decreases ps.len() - i,
{
    if i < 0 || i >= ps.len() {
        Ok(Seq::empty())
    } else {
        let (k, p) = spec_classify(ps[i].ty);
        match spec_map_param(k, p) {
            Err(reason) => Err("参数 "@ + decimal(i as nat) + "："@ + reason),
            Ok(t) => {
                let nm = param_name(ps[i].name@, i as nat, used);
                match params_from(ps, i + 1, used.insert(nm)) {
                    Ok(rest) => Ok(seq![(nm, t)] + rest),
                    Err(e) => Err(e),
                }
            },
        }
    }
}

/// What happens to one function.
pub enum Decision {
    /// Left out.
    Ignore,
    /// Skipped: name and reason.
    Skipped(Seq<char>, Seq<char>),
    /// Bound: name, named parameters, return type.
    Bound(Seq<char>, Seq<(Seq<char>, QiParamType)>, QiRetType),
}

/// A function is considered when it has a name that passes the prefix filter,
/// was not seen before and has external linkage.
pub open spec fn considered(f: CFunction, prefix: Option<Seq<char>>, seen: Set<Seq<char>>) -> bool {
    &&& f.name@.len() > 0
    &&& match prefix {
        Some(p) => starts_with(f.name@, p),
        None => true,
    }
    &&& !seen.contains(f.name@)
    &&& f.external
}

/// The decision for `f`, given the names seen before it.
pub open spec fn decide(f: CFunction, prefix: Option<Seq<char>>, seen: Set<Seq<char>>) -> Decision {
    if !considered(f, prefix, seen) {
        Decision::Ignore
    } else if f.variadic {
        Decision::Skipped(f.name@, "变参函数（... 暂不支持）"@)
    } else {
        let (rk, rp) = spec_classify(f.ret);
        match spec_map_ret(rk, rp) {
            Err(reason) => Decision::Skipped(f.name@, reason),
            Ok(ret) => match params_from(f.params@, 0, Set::empty()) {
                Err(reason) => Decision::Skipped(f.name@, reason),
                Ok(params) => Decision::Bound(f.name@, params, ret),
            },
        }
    }
}

/// The names seen after `f`.
pub open spec fn seen_after(f: CFunction, prefix: Option<Seq<char>>, seen: Set<Seq<char>>) -> Set<
    Seq<char>,
> {
    if considered(f, prefix, seen) {
        seen.insert(f.name@)
    } else {
        seen
    }
}

/// The bound and skipped functions of `fs`, in visiting order, and the names seen.
pub open spec fn collect_spec(fs: Seq<CFunction>, prefix: Option<Seq<char>>) -> (
    Seq<(Seq<char>, Seq<(Seq<char>, QiParamType)>, QiRetType)>,
    Seq<(Seq<char>, Seq<char>)>,
    Set<Seq<char>>,
)
    decreases fs.len(),
{
    if fs.len() == 0 {
        (Seq::empty(), Seq::empty(), Set::empty())
    } else {
        let (m, s, seen) = collect_spec(fs.drop_last(), prefix);
        let f = fs.last();
        let seen2 = seen_after(f, prefix, seen);
        match decide(f, prefix, seen) {
            Decision::Ignore => (m, s, seen2),
            Decision::Skipped(n, r) => (m, s.push((n, r)), seen2),
            Decision::Bound(n, ps, ret) => (m.push((n, ps, ret)), s, seen2),
        }
    }
}

/// A bound function as plain values.
pub open spec fn mapped_view(f: MappedFn) -> (Seq<char>, Seq<(Seq<char>, QiParamType)>, QiRetType) {
    (f.name@, f.params@.map_values(|p: (String, QiParamType)| (p.0@, p.1)), f.ret)
}

/// A skipped function as plain values.
pub open spec fn skipped_view(s: SkippedFn) -> (Seq<char>, Seq<char>) {
    (s.name@, s.reason@)
}

pub open spec fn mapped_views(v: Seq<MappedFn>) -> Seq<(Seq<char>, Seq<(Seq<char>, QiParamType)>, QiRetType)> {
    v.map_values(|f: MappedFn| mapped_view(f))
}

pub open spec fn skipped_views(v: Seq<SkippedFn>) -> Seq<(Seq<char>, Seq<char>)> {
    v.map_values(|s: SkippedFn| skipped_view(s))
}

/// Names are in order: no name comes after a later one.
pub open spec fn names_sorted(names: Seq<Seq<char>>) -> bool {
    forall|i: int, j: int| 0 <= i < j < names.len() ==> seq_le(#[trigger] names[i], #[trigger] names[j])
}

pub open spec fn mapped_names(v: Seq<MappedFn>) -> Seq<Seq<char>> {
    v.map_values(|f: MappedFn| f.name@)
}

pub open spec fn skipped_names(v: Seq<SkippedFn>) -> Seq<Seq<char>> {
    v.map_values(|s: SkippedFn| s.name@)
}

/// The names in `v`, as a set.
pub open spec fn name_set(v: Seq<Vec<char>>) -> Set<Seq<char>> {
    Set::new(|x: Seq<char>| views(v).contains(x))
}

proof fn lemma_name_set_push(v: Seq<Vec<char>>, x: Vec<char>)
    ensures
        name_set(v.push(x)) == name_set(v).insert(x@),
{
    assert(views(v.push(x)) == views(v).push(x@));
    assert forall|y: Seq<char>| name_set(v.push(x)).contains(y) == name_set(v).insert(x@).contains(y) by {
        if views(v).contains(y) {
            let k = choose|k: int| 0 <= k < views(v).len() && views(v)[k] == y;
            assert(views(v.push(x))[k] == y);
        }
        if views(v.push(x)).contains(y) && y != x@ {
            let k = choose|k: int| 0 <= k < views(v.push(x)).len() && views(v.push(x))[k] == y;
            assert(k < views(v).len());
            assert(views(v)[k] == y);
        }
        if y == x@ {
            assert(views(v.push(x))[views(v).len() as int] == y);
        }
    }
    assert(name_set(v.push(x)) =~= name_set(v).insert(x@));
}

pub open spec fn param_views(v: Seq<(String, QiParamType)>) -> Seq<(Seq<char>, QiParamType)> {
    v.map_values(|p: (String, QiParamType)| (p.0@, p.1))
}

pub open spec fn prepend_ok(acc: Seq<(Seq<char>, QiParamType)>, r: Result<Seq<(Seq<char>, QiParamType)>, Seq<char>>) -> Result<Seq<(Seq<char>, QiParamType)>, Seq<char>> {
    match r {
        Ok(rest) => Ok(acc + rest),
        Err(e) => Err(e),
    }
}

/// Qi names and types of the parameters, or the reason of the first one that
/// does not map.
fn map_params(ps: &Vec<CParam>) -> (r: Result<Vec<(String, QiParamType)>, String>)
    ensures
        match (r, params_from(ps@, 0, Set::empty())) {
            (Ok(v), Ok(s)) => param_views(v@) == s,
            (Err(e), Err(m)) => e@ == m,
            _ => false,
        },
{
    let mut used: Vec<Vec<char>> = Vec::new();
    let mut acc: Vec<(String, QiParamType)> = Vec::new();
    let mut i: usize = 0;
    proof {
        assert(name_set(used@) =~= Set::<Seq<char>>::empty());
        match params_from(ps@, 0, Set::empty()) {
            Ok(rest) => {
                assert(param_views(acc@) + rest =~= rest);
            },
            Err(e) => {},
        }
    }
    while i < ps.len()
        invariant
            i <= ps.len(),
            params_from(ps@, 0, Set::empty()) == prepend_ok(
                param_views(acc@),
                params_from(ps@, i as int, name_set(used@)),
            ),
        decreases ps.len() - i,
    {
        let p = &ps[i];
        let (k, pk) = classify(p.ty);
        match map_param(k, pk) {
            Err(reason) => {
                let mut msg = String::from_str("参数 ");
                push_decimal(&mut msg, i);
                msg.append("：");
                msg.append(reason.as_str());
                return Err(msg);
            },
            Ok(t) => {
                let raw = to_chars(p.name.as_str());
                let fresh = raw.len() > 0 && is_ascii_ident(p.name.as_str()) && !contains_chars(&used, &raw);
                let nm = if fresh {
                    p.name.clone()
                } else {
                    let mut s = String::new();
                    crate::text::push_char(&mut s, 'p');
                    push_decimal(&mut s, i);
                    s
                };
                let ghost nmv = nm@;
                assert(nmv == param_name(p.name@, i as nat, name_set(used@)));
                let nm_chars = to_chars(nm.as_str());
                proof {
                    lemma_name_set_push(used@, nm_chars);
                    assert(param_views(acc@.push((nm, t))) == param_views(acc@) + seq![(nmv, t)]);
                    match params_from(ps@, i + 1, name_set(used@).insert(nmv)) {
                        Ok(rest) => {
                            assert(param_views(acc@) + (seq![(nmv, t)] + rest) == param_views(acc@) + seq![(nmv, t)] + rest);
                        },
                        Err(e) => {},
                    }
                }
                used.push(nm_chars);
                acc.push((nm, t));
            },
        }
        i += 1;
    }
    proof {
        assert(param_views(acc@) + Seq::<(Seq<char>, QiParamType)>::empty() == param_views(acc@));
    }
    Ok(acc)
}

/// What happens to one function, with the values that go into the result.
pub enum Handled {
    Ignore,
    Skipped(SkippedFn),
    Bound(MappedFn),
}

pub open spec fn handled_view(h: Handled) -> Decision {
    match h {
        Handled::Ignore => Decision::Ignore,
        Handled::Skipped(s) => Decision::Skipped(s.name@, s.reason@),
        Handled::Bound(m) => Decision::Bound(m.name@, param_views(m.params@), m.ret),
    }
}

pub open spec fn prefix_view(prefix: Option<Vec<char>>) -> Option<Seq<char>> {
    match prefix {
        Some(p) => Some(p@),
        None => None,
    }
}

/// Decides what happens to `f` and records its name as seen when it is considered.
fn handle_function(f: &CFunction, prefix: &Option<Vec<char>>, seen: &mut Vec<Vec<char>>) -> (h: Handled)
    ensures
        handled_view(h) == decide(*f, prefix_view(*prefix), name_set(old(seen)@)),
        name_set(final(seen)@) == seen_after(*f, prefix_view(*prefix), name_set(old(seen)@)),
{
    let name = to_chars(f.name.as_str());
    if name.len() == 0 {
        return Handled::Ignore;
    }
    match prefix {
        Some(p) => {
            if !chars_start_with(&name, p) {
                return Handled::Ignore;
            }
        },
        None => {},
    }
    if contains_chars(seen, &name) {
        return Handled::Ignore;
    }
    if !f.external {
        return Handled::Ignore;
    }
    proof {
        lemma_name_set_push(seen@, name);
    }
    seen.push(name);
    if f.variadic {
        return Handled::Skipped(
            SkippedFn { name: f.name.clone(), reason: String::from_str("变参函数（... 暂不支持）") },
        );
    }
    let (rk, rp) = classify(f.ret);
    let ret = match map_ret(rk, rp) {
        Ok(r) => r,
        Err(reason) => {
            return Handled::Skipped(SkippedFn { name: f.name.clone(), reason });
        },
    };
    match map_params(&f.params) {
        Ok(params) => Handled::Bound(MappedFn { name: f.name.clone(), params, ret }),
        Err(reason) => Handled::Skipped(SkippedFn { name: f.name.clone(), reason }),
    }
}

proof fn lemma_sorted_insert(names: Seq<Seq<char>>, p: int, x: Seq<char>)
    requires
        names_sorted(names),
        0 <= p <= names.len(),
        forall|k: int| 0 <= k < p ==> seq_le(#[trigger] names[k], x),
        p < names.len() ==> seq_lt(x, names[p]),
    ensures
        names_sorted(names.insert(p, x)),
{
    let n2 = names.insert(p, x);
    assert forall|i: int, j: int| 0 <= i < j < n2.len() implies seq_le(#[trigger] n2[i], #[trigger] n2[j]) by {
        if j < p {
            assert(n2[i] == names[i] && n2[j] == names[j]);
        } else if j == p {
            assert(n2[j] == x && n2[i] == names[i]);
        } else if i == p {
            assert(n2[i] == x && n2[j] == names[j - 1]);
            if j - 1 > p {
                assert(seq_le(names[p], names[j - 1]));
                if seq_lt(names[p], names[j - 1]) {
                    lemma_seq_lt_trans(x, names[p], names[j - 1]);
                }
            }
        } else if i < p {
            assert(n2[i] == names[i] && n2[j] == names[j - 1]);
            assert(seq_le(names[i], x));
            assert(seq_le(x, names[p]));
            assert(seq_le(names[p], names[j - 1])) by {
                if p < j - 1 {
                    assert(seq_le(names[p], names[j - 1]));
                }
            }
            if seq_lt(names[i], x) {
                lemma_seq_lt_trans(names[i], x, names[p]);
            }
            if seq_lt(names[i], names[p]) && seq_lt(names[p], names[j - 1]) {
                lemma_seq_lt_trans(names[i], names[p], names[j - 1]);
            }
        } else {
            assert(n2[i] == names[i - 1] && n2[j] == names[j - 1]);
        }
    }
}

/// Where a name goes in a sorted list: after every name that is not greater.
fn insert_position(names: &Vec<Vec<char>>, x: &Vec<char>) -> (p: usize)
    requires
        names_sorted(views(names@)),
    ensures
        p <= names.len(),
        forall|k: int| 0 <= k < p ==> seq_le(#[trigger] views(names@)[k], x@),
        p < names.len() ==> seq_lt(x@, views(names@)[p as int]),
{
    let mut p: usize = 0;
    while p < names.len() && !chars_lt(x, &names[p])
        invariant
            p <= names.len(),
            forall|k: int| 0 <= k < p ==> seq_le(#[trigger] views(names@)[k], x@),
        decreases names.len() - p,
    {
        proof {
            lemma_seq_lt_total(names@[p as int]@, x@);
            assert(views(names@)[p as int] == names@[p as int]@);
        }
        p += 1;
    }
    p
}

fn name_chars_of_mapped(v: &Vec<MappedFn>) -> (r: Vec<Vec<char>>)
    ensures
        views(r@) == mapped_names(v@),
{
    let mut r: Vec<Vec<char>> = Vec::new();
    let mut i: usize = 0;
    while i < v.len()
        invariant
            i <= v.len(),
            views(r@) == mapped_names(v@).take(i as int),
        decreases v.len() - i,
    {
        r.push(to_chars(v[i].name.as_str()));
        assert(mapped_names(v@).take(i + 1) == mapped_names(v@).take(i as int).push(v@[i as int].name@));
        i += 1;
    }
    assert(mapped_names(v@).take(v.len() as int) == mapped_names(v@));
    r
}

fn name_chars_of_skipped(v: &Vec<SkippedFn>) -> (r: Vec<Vec<char>>)
    ensures
        views(r@) == skipped_names(v@),
{
    let mut r: Vec<Vec<char>> = Vec::new();
    let mut i: usize = 0;
    while i < v.len()
        invariant
            i <= v.len(),
            views(r@) == skipped_names(v@).take(i as int),
        decreases v.len() - i,
    {
        r.push(to_chars(v[i].name.as_str()));
        assert(skipped_names(v@).take(i + 1) == skipped_names(v@).take(i as int).push(v@[i as int].name@));
        i += 1;
    }
    assert(skipped_names(v@).take(v.len() as int) == skipped_names(v@));
    r
}

/// Inserts a bound function, keeping the list sorted by name.
fn insert_mapped(v: &mut Vec<MappedFn>, m: MappedFn)
    requires
        names_sorted(mapped_names(old(v)@)),
    ensures
        names_sorted(mapped_names(final(v)@)),
        mapped_views(final(v)@).to_multiset() == mapped_views(old(v)@).to_multiset().insert(mapped_view(m)),
{
    let names = name_chars_of_mapped(v);
    let x = to_chars(m.name.as_str());
    let p = insert_position(&names, &x);
    let ghost old_v = v@;
    assert(views(names@).len() == mapped_names(v@).len());
    v.insert(p, m);
    proof {
        assert(mapped_names(v@) == mapped_names(old_v).insert(p as int, x@));
        lemma_sorted_insert(mapped_names(old_v), p as int, x@);
        assert(mapped_views(v@) == mapped_views(old_v).insert(p as int, mapped_view(m)));
        vstd::seq_lib::to_multiset_insert(mapped_views(old_v), p as int, mapped_view(m));
    }
}

/// Inserts a skipped function, keeping the list sorted by name.
fn insert_skipped(v: &mut Vec<SkippedFn>, s: SkippedFn)
    requires
        names_sorted(skipped_names(old(v)@)),
    ensures
        names_sorted(skipped_names(final(v)@)),
        skipped_views(final(v)@).to_multiset() == skipped_views(old(v)@).to_multiset().insert(skipped_view(s)),
{
    let names = name_chars_of_skipped(v);
    let x = to_chars(s.name.as_str());
    let p = insert_position(&names, &x);
    let ghost old_v = v@;
    assert(views(names@).len() == skipped_names(v@).len());
    v.insert(p, s);
    proof {
        assert(skipped_names(v@) == skipped_names(old_v).insert(p as int, x@));
        lemma_sorted_insert(skipped_names(old_v), p as int, x@);
        assert(skipped_views(v@) == skipped_views(old_v).insert(p as int, skipped_view(s)));
        vstd::seq_lib::to_multiset_insert(skipped_views(old_v), p as int, skipped_view(s));
    }
}

/// The bound and skipped functions of the prototypes `decls`, visited in
/// order, with the prefix filter `prefix`. Each list is sorted by name and
/// holds exactly what [`collect_spec`] decides; across both lists every name
/// occurs once, and the names are exactly those of the functions that have a
/// name, pass the prefix filter and have external linkage.
pub fn collect_bindings(decls: &Vec<CFunction>, prefix: Option<&str>) -> (r: BindgenResult)
    ensures
        names_sorted(mapped_names(r.mapped@)),
        names_sorted(skipped_names(r.skipped@)),
        mapped_views(r.mapped@).to_multiset() == collect_spec(
            decls@,
            match prefix {
                Some(p) => Some(p@),
                None => None,
            },
        ).0.to_multiset(),
        skipped_views(r.skipped@).to_multiset() == collect_spec(
            decls@,
            match prefix {
                Some(p) => Some(p@),
                None => None,
            },
        ).1.to_multiset(),
        forall|i: int, j: int|
            0 <= i < j < result_names(r).len() ==> #[trigger] result_names(r)[i] != #[trigger] result_names(r)[j],
        forall|x: Seq<char>|
            #[trigger] result_names(r).contains(x) <==> eligible_name(
                decls@,
                match prefix {
                    Some(p) => Some(p@),
                    None => None,
                },
                x,
            ),
{
    let pfx: Option<Vec<char>> = match prefix {
        Some(p) => Some(to_chars(p)),
        None => None,
    };
    let ghost pv = prefix_view(pfx);
    let mut seen: Vec<Vec<char>> = Vec::new();
    let mut mapped: Vec<MappedFn> = Vec::new();
    let mut skipped: Vec<SkippedFn> = Vec::new();
    let mut k: usize = 0;
    proof {
        assert(name_set(seen@) =~= Set::<Seq<char>>::empty());
        assert(decls@.take(0) == Seq::<CFunction>::empty());
        assert(mapped_views(mapped@) == Seq::<(Seq<char>, Seq<(Seq<char>, QiParamType)>, QiRetType)>::empty());
        assert(skipped_views(skipped@) == Seq::<(Seq<char>, Seq<char>)>::empty());
    }
    while k < decls.len()
        invariant
            k <= decls.len(),
            pv == prefix_view(pfx),
            names_sorted(mapped_names(mapped@)),
            names_sorted(skipped_names(skipped@)),
            mapped_views(mapped@).to_multiset() == collect_spec(decls@.take(k as int), pv).0.to_multiset(),
            skipped_views(skipped@).to_multiset() == collect_spec(decls@.take(k as int), pv).1.to_multiset(),
            name_set(seen@) == collect_spec(decls@.take(k as int), pv).2,
        decreases decls.len() - k,
    {
        let ghost prev = collect_spec(decls@.take(k as int), pv);
        proof {
            assert(decls@.take(k + 1).drop_last() == decls@.take(k as int));
            assert(decls@.take(k + 1).last() == decls@[k as int]);
        }
        let h = handle_function(&decls[k], &pfx, &mut seen);
        match h {
            Handled::Ignore => {},
            Handled::Skipped(s) => {
                proof {
                    vstd::seq_lib::to_multiset_build(prev.1, skipped_view(s));
                }
                insert_skipped(&mut skipped, s);
            },
            Handled::Bound(m) => {
                proof {
                    vstd::seq_lib::to_multiset_build(prev.0, mapped_view(m));
                }
                insert_mapped(&mut mapped, m);
            },
        }
        k += 1;
    }
    proof {
        assert(decls@.take(decls.len() as int) == decls@);
    }
    let r = BindgenResult { mapped, skipped };
    proof {
        lemma_result_names(decls@, pv, r);
    }
    r
}

/// All names that `collect_spec` put into one of the two lists.
pub open spec fn all_names(
    m: Seq<(Seq<char>, Seq<(Seq<char>, QiParamType)>, QiRetType)>,
    s: Seq<(Seq<char>, Seq<char>)>,
) -> Seq<Seq<char>> {
    m.map_values(|e: (Seq<char>, Seq<(Seq<char>, QiParamType)>, QiRetType)| e.0) + s.map_values(
        |e: (Seq<char>, Seq<char>)| e.0,
    )
}

proof fn lemma_collect_inv(fs: Seq<CFunction>, prefix: Option<Seq<char>>)
    ensures
        ({
            let (m, s, seen) = collect_spec(fs, prefix);
            let names = all_names(m, s);
            &&& forall|i: int| 0 <= i < names.len() ==> seen.contains(#[trigger] names[i])
            &&& forall|i: int, j: int| 0 <= i < j < names.len() ==> #[trigger] names[i] != #[trigger] names[j]
            &&& forall|i: int| 0 <= i < names.len() ==> match prefix {
                Some(p) => starts_with(#[trigger] names[i], p),
                None => true,
            }
        }),
    decreases fs.len(),
{
    if fs.len() > 0 {
        lemma_collect_inv(fs.drop_last(), prefix);
        let (m, s, seen) = collect_spec(fs.drop_last(), prefix);
        let f = fs.last();
        let old_names = all_names(m, s);
        let nm = f.name@;
        match decide(f, prefix, seen) {
            Decision::Ignore => {},
            Decision::Skipped(n, r) => {
                let new_names = all_names(m, s.push((n, r)));
                assert(new_names == old_names.push(nm));
            },
            Decision::Bound(n, ps, ret) => {
                let mn = m.map_values(|e: (Seq<char>, Seq<(Seq<char>, QiParamType)>, QiRetType)| e.0);
                let sn = s.map_values(|e: (Seq<char>, Seq<char>)| e.0);
                let new_names = all_names(m.push((n, ps, ret)), s);
                assert(new_names == mn.push(nm) + sn);
                assert forall|i: int| 0 <= i < new_names.len() implies (seen.insert(nm)).contains(
                    #[trigger] new_names[i],
                ) && (match prefix {
                    Some(p) => starts_with(new_names[i], p),
                    None => true,
                }) by {
                    if i < mn.len() {
                        assert(new_names[i] == old_names[i]);
                    } else if i > mn.len() {
                        assert(new_names[i] == old_names[i - 1]);
                    }
                }
                assert forall|i: int, j: int| 0 <= i < j < new_names.len() implies #[trigger] new_names[i]
                    != #[trigger] new_names[j] by {
                    let oi = if i < mn.len() { i } else { i - 1 };
                    let oj = if j < mn.len() { j } else { j - 1 };
                    if i != mn.len() && j != mn.len() {
                        assert(new_names[i] == old_names[oi]);
                        assert(new_names[j] == old_names[oj]);
                    } else if i == mn.len() {
                        assert(new_names[j] == old_names[oj]);
                        assert(seen.contains(old_names[oj]));
                    } else {
                        assert(new_names[i] == old_names[oi]);
                        assert(seen.contains(old_names[oi]));
                    }
                }
            },
        }
    }
}

/// No function is bound or skipped twice: the names in the two lists are all
/// different, and each passes the prefix filter.
pub proof fn lemma_collected_names_distinct(fs: Seq<CFunction>, prefix: Option<Seq<char>>)
    ensures
        ({
            let (m, s, _) = collect_spec(fs, prefix);
            let names = all_names(m, s);
            &&& forall|i: int, j: int| 0 <= i < j < names.len() ==> #[trigger] names[i] != #[trigger] names[j]
            &&& forall|i: int| 0 <= i < names.len() ==> match prefix {
                Some(p) => starts_with(#[trigger] names[i], p),
                None => true,
            }
        }),
{
    lemma_collect_inv(fs, prefix);
}

/// A function that is bound or skipped unless its name came earlier: it has a
/// name, passes the prefix filter, and has external linkage.
pub open spec fn eligible(f: CFunction, prefix: Option<Seq<char>>) -> bool {
    &&& f.name@.len() > 0
    &&& match prefix {
        Some(p) => starts_with(f.name@, p),
        None => true,
    }
    &&& f.external
}

/// The name of an eligible function of `fs`.
pub open spec fn eligible_name(fs: Seq<CFunction>, prefix: Option<Seq<char>>, x: Seq<char>) -> bool {
    exists|i: int| 0 <= i < fs.len() && eligible(fs[i], prefix) && #[trigger] fs[i].name@ == x
}

proof fn lemma_collect_complete_inv(fs: Seq<CFunction>, prefix: Option<Seq<char>>)
    ensures
        ({
            let (m, s, seen) = collect_spec(fs, prefix);
            forall|x: Seq<char>|
                (#[trigger] seen.contains(x) <==> eligible_name(fs, prefix, x))
                    && (seen.contains(x) <==> all_names(m, s).contains(x))
        }),
    decreases fs.len(),
{
    if fs.len() > 0 {
        let prev = fs.drop_last();
        lemma_collect_complete_inv(prev, prefix);
        let (m, s, seen) = collect_spec(prev, prefix);
        let f = fs.last();
        let (m2, s2, seen2) = collect_spec(fs, prefix);
        let old_names = all_names(m, s);
        let new_names = all_names(m2, s2);
        assert forall|x: Seq<char>| eligible_name(fs, prefix, x) <==> (eligible_name(prev, prefix, x) || (
        eligible(f, prefix) && f.name@ == x)) by {
            if eligible_name(fs, prefix, x) {
                let i = choose|i: int| 0 <= i < fs.len() && eligible(fs[i], prefix) && #[trigger] fs[i].name@ == x;
                if i < prev.len() {
                    assert(prev[i] == fs[i]);
                }
            }
            if eligible_name(prev, prefix, x) {
                let i = choose|i: int| 0 <= i < prev.len() && eligible(prev[i], prefix) && #[trigger] prev[i].name@ == x;
                assert(fs[i] == prev[i]);
            }
            if eligible(f, prefix) && f.name@ == x {
                assert(fs[fs.len() - 1] == f);
            }
        }
        match decide(f, prefix, seen) {
            Decision::Ignore => {
                assert(m2 == m && s2 == s);
            },
            Decision::Skipped(n, r) => {
                assert(new_names == old_names.push(f.name@));
                assert forall|x: Seq<char>| new_names.contains(x) <==> (old_names.contains(x) || x == f.name@) by {
                    if new_names.contains(x) {
                        let k = choose|k: int| 0 <= k < new_names.len() && new_names[k] == x;
                        if k < old_names.len() {
                            assert(old_names[k] == x);
                        }
                    }
                    if old_names.contains(x) {
                        let k = choose|k: int| 0 <= k < old_names.len() && old_names[k] == x;
                        assert(new_names[k] == x);
                    }
                    if x == f.name@ {
                        assert(new_names[old_names.len() as int] == x);
                    }
                }
            },
            Decision::Bound(n, ps, ret) => {
                let mn = m.map_values(|e: (Seq<char>, Seq<(Seq<char>, QiParamType)>, QiRetType)| e.0);
                let sn = s.map_values(|e: (Seq<char>, Seq<char>)| e.0);
                assert(new_names == mn.push(f.name@) + sn);
                assert(old_names == mn + sn);
                assert forall|x: Seq<char>| new_names.contains(x) <==> (old_names.contains(x) || x == f.name@) by {
                    if new_names.contains(x) {
                        let k = choose|k: int| 0 <= k < new_names.len() && new_names[k] == x;
                        if k < mn.len() {
                            assert(old_names[k] == x);
                        } else if k > mn.len() {
                            assert(old_names[k - 1] == x);
                        }
                    }
                    if old_names.contains(x) {
                        let k = choose|k: int| 0 <= k < old_names.len() && old_names[k] == x;
                        if k < mn.len() {
                            assert(new_names[k] == x);
                        } else {
                            assert(new_names[k + 1] == x);
                        }
                    }
                    if x == f.name@ {
                        assert(new_names[mn.len() as int] == x);
                    }
                }
            },
        }
    }
}

/// Every function that has a name, passes the prefix filter and has external
/// linkage is accounted for: the names in the bound and skipped lists are
/// exactly the names of those functions (each once, by
/// `lemma_collected_names_distinct`).
pub proof fn lemma_collected_names_complete(fs: Seq<CFunction>, prefix: Option<Seq<char>>)
    ensures
        ({
            let (m, s, _) = collect_spec(fs, prefix);
            forall|x: Seq<char>| #[trigger] all_names(m, s).contains(x) <==> eligible_name(fs, prefix, x)
        }),
{
    lemma_collect_complete_inv(fs, prefix);
    let (m, s, seen) = collect_spec(fs, prefix);
    assert forall|x: Seq<char>| #[trigger] all_names(m, s).contains(x) <==> eligible_name(fs, prefix, x) by {
        assert(seen.contains(x) <==> eligible_name(fs, prefix, x));
    }
}

/// The names in both lists of a result: the bound ones, then the skipped ones.
pub open spec fn result_names(r: BindgenResult) -> Seq<Seq<char>> {
    mapped_names(r.mapped@) + skipped_names(r.skipped@)
}

proof fn lemma_same_multiset<A>(v: Seq<A>, w: Seq<A>)
    requires
        w.no_duplicates(),
        v.to_multiset() == w.to_multiset(),
    ensures
        v.no_duplicates(),
        forall|x: A| v.contains(x) <==> w.contains(x),
{
    broadcast use vstd::seq_lib::group_to_multiset_ensures;

    w.lemma_multiset_has_no_duplicates();
    v.lemma_multiset_has_no_duplicates_conv();
    v.to_multiset_ensures();
    w.to_multiset_ensures();
    assert forall|x: A| v.contains(x) <==> w.contains(x) by {
        assert(v.contains(x) <==> v.to_multiset().count(x) > 0);
        assert(w.contains(x) <==> w.to_multiset().count(x) > 0);
    }
}

/// A result whose lists hold what `collect_spec` decides (in any order)
/// names every eligible function of `fs` once and nothing else: its names are
/// all different, and they are exactly the names of the functions that have
/// a name, pass the prefix filter and have external linkage.
pub proof fn lemma_result_names(fs: Seq<CFunction>, prefix: Option<Seq<char>>, r: BindgenResult)
    requires
        mapped_views(r.mapped@).to_multiset() == collect_spec(fs, prefix).0.to_multiset(),
        skipped_views(r.skipped@).to_multiset() == collect_spec(fs, prefix).1.to_multiset(),
    ensures
        forall|i: int, j: int|
            0 <= i < j < result_names(r).len() ==> #[trigger] result_names(r)[i] != #[trigger] result_names(r)[j],
        forall|x: Seq<char>| #[trigger] result_names(r).contains(x) <==> eligible_name(fs, prefix, x),
{
    let (m, s, _) = collect_spec(fs, prefix);
    let names = all_names(m, s);
    lemma_collected_names_distinct(fs, prefix);
    lemma_collected_names_complete(fs, prefix);
    let ml = m.len() as int;
    assert forall|i: int| 0 <= i < ml implies #[trigger] names[i] == m[i].0 by {}
    assert forall|i: int| 0 <= i < s.len() implies #[trigger] names[ml + i] == s[i].0 by {}
    assert(m.no_duplicates()) by {
        assert forall|i: int, j: int| 0 <= i < m.len() && 0 <= j < m.len() && i != j implies m[i] != m[j] by {
            if i < j {
                assert(names[i] != names[j]);
            } else {
                assert(names[j] != names[i]);
            }
        }
    }
    assert(s.no_duplicates()) by {
        assert forall|i: int, j: int| 0 <= i < s.len() && 0 <= j < s.len() && i != j implies s[i] != s[j] by {
            if i < j {
                assert(names[ml + i] != names[ml + j]);
            } else {
                assert(names[ml + j] != names[ml + i]);
            }
        }
    }
    let mv = mapped_views(r.mapped@);
    let sv = skipped_views(r.skipped@);
    lemma_same_multiset(mv, m);
    lemma_same_multiset(sv, s);
    let rn = result_names(r);
    let rl = r.mapped@.len() as int;
    assert forall|i: int| 0 <= i < rl implies #[trigger] rn[i] == mv[i].0 by {}
    assert forall|i: int| 0 <= i < r.skipped@.len() implies #[trigger] rn[rl + i] == sv[i].0 by {}
    // each name of the result sits at some position of `names`
    assert forall|i: int| 0 <= i < rn.len() implies #[trigger] rn[i] == rn[i] && exists|p: int|
        0 <= p < names.len() && #[trigger] names[p] == rn[i] && (i < rl <==> p < ml) && (i < rl ==> m[p] == mv[i]) && (i >= rl ==> s[p - ml] == sv[i - rl]) by {
        if i < rl {
            assert(mv.contains(mv[i]));
            let p = choose|p: int| 0 <= p < m.len() && m[p] == mv[i];
            assert(names[p] == rn[i]);
        } else {
            assert(sv.contains(sv[i - rl]));
            let q = choose|q: int| 0 <= q < s.len() && s[q] == sv[i - rl];
            assert(names[ml + q] == rn[i]);
        }
    }
    assert forall|i: int, j: int| 0 <= i < j < rn.len() implies #[trigger] rn[i] != #[trigger] rn[j] by {
        let p = choose|p: int|
            0 <= p < names.len() && #[trigger] names[p] == rn[i] && (i < rl <==> p < ml) && (i < rl ==> m[p] == mv[i]) && (i >= rl ==> s[p - ml] == sv[i - rl]);
        let q = choose|q: int|
            0 <= q < names.len() && #[trigger] names[q] == rn[j] && (j < rl <==> q < ml) && (j < rl ==> m[q] == mv[j]) && (j >= rl ==> s[q - ml] == sv[j - rl]);
        if p == q {
            if i < rl && j < rl {
                assert(mv[i] != mv[j]);
            } else if i >= rl && j >= rl {
                assert(sv[i - rl] != sv[j - rl]);
            }
        } else if p < q {
            assert(names[p] != names[q]);
        } else {
            assert(names[q] != names[p]);
        }
    }
    assert forall|x: Seq<char>| #[trigger] rn.contains(x) <==> eligible_name(fs, prefix, x) by {
        assert(names.contains(x) <==> eligible_name(fs, prefix, x));
        if rn.contains(x) {
            let i = choose|i: int| 0 <= i < rn.len() && rn[i] == x;
            let p = choose|p: int|
                0 <= p < names.len() && #[trigger] names[p] == rn[i] && (i < rl <==> p < ml) && (i < rl ==> m[p] == mv[i]) && (i >= rl ==> s[p - ml] == sv[i - rl]);
            assert(names.contains(x));
        }
        if names.contains(x) {
            let p = choose|p: int| 0 <= p < names.len() && names[p] == x;
            if p < ml {
                assert(m.contains(m[p]));
                let i = choose|i: int| 0 <= i < mv.len() && mv[i] == m[p];
                assert(rn[i] == x);
            } else {
                assert(s.contains(s[p - ml]));
                let i = choose|i: int| 0 <= i < sv.len() && sv[i] == s[p - ml];
                assert(rn[rl + i] == x);
            }
        }
    }
}

} // verus!
