//! The dependency graph of the installed plugins: what each plugin needs,
//! what is missing or too old, who depends on whom, and the order in which
//! plugins are activated, deactivated and unloaded.
use vstd::prelude::*;
use vstd::string::*;

use crate::error::{err_view, ErrorCode, ErrorView, PluginError, PluginResult};
use crate::ids::{contains_key, keys_of, PluginId, Version, version_lt, version_text};
use crate::manifest::{about_plugin, plugin_message, DependencySpec, DiscoveredPlugin, Manifest};
use crate::text::{concat3, join, lemma_seq_lt_irreflexive, lemma_seq_lt_transitive, lemma_seq_lt_trichotomy, seq_lt};

verus! {

/// What a dependency says, as plain values.
pub struct DepView {
    pub plugin: Seq<char>,
    pub min: Option<(u32, u32, u32)>,
    pub optional: bool,
}

/// One installed plugin as the graph sees it.
pub struct RecordView {
    pub id: Seq<char>,
    pub version: (u32, u32, u32),
    pub deps: Seq<DepView>,
}

pub open spec fn dep_view(d: DependencySpec) -> DepView {
    DepView {
        plugin: d.plugin@,
        min: match d.min_version {
            Some(v) => Some(v@),
            None => None,
        },
        optional: d.optional,
    }
}

pub open spec fn record_of(m: Manifest) -> RecordView {
    RecordView { id: m.id@, version: m.version@, deps: deps_view(m.dependencies@) }
}

/// The graph view of a list of discovered plugins.
pub open spec fn plugins_view(p: Seq<DiscoveredPlugin>) -> Seq<RecordView> {
    p.map_values(|d: DiscoveredPlugin| record_of(d.manifest))
}

/// Whether `x` is installed.
pub open spec fn installed(g: Seq<RecordView>, x: Seq<char>) -> bool {
    exists|i: int| 0 <= i < g.len() && (#[trigger] g[i]).id == x
}

/// The installed version of `x`; the last record of `x` counts.
pub open spec fn version_of(g: Seq<RecordView>, x: Seq<char>) -> Option<(u32, u32, u32)>
    decreases g.len(),
{
    if g.len() == 0 {
        None
    } else if g.last().id == x {
        Some(g.last().version)
    } else {
        version_of(g.drop_last(), x)
    }
}

/// Dependency `j` of record `i` is a required dependency of `a` on `b`.
pub open spec fn strong_at(g: Seq<RecordView>, i: int, j: int, a: Seq<char>, b: Seq<char>) -> bool {
    &&& 0 <= i < g.len()
    &&& 0 <= j < g[i].deps.len()
    &&& g[i].id == a
    &&& !g[i].deps[j].optional
    &&& g[i].deps[j].plugin == b
}

/// Dependency `j` of record `i` is a dependency, required or optional, of
/// `a` on `b`.
pub open spec fn uses_at(g: Seq<RecordView>, i: int, j: int, a: Seq<char>, b: Seq<char>) -> bool {
    &&& 0 <= i < g.len()
    &&& 0 <= j < g[i].deps.len()
    &&& g[i].id == a
    &&& g[i].deps[j].plugin == b
}

/// `a` cannot run without `b`.
pub open spec fn strong(g: Seq<RecordView>, a: Seq<char>, b: Seq<char>) -> bool {
    exists|i: int, j: int| strong_at(g, i, j, a, b)
}

/// `a` lists `b` among its dependencies, required or optional.
pub open spec fn uses(g: Seq<RecordView>, a: Seq<char>, b: Seq<char>) -> bool {
    exists|i: int, j: int| uses_at(g, i, j, a, b)
}

/// The lowest version of `b` that the last required dependency of `a` on
/// `b` in `deps` asks for, if it asks for one.
pub open spec fn min_in_deps(deps: Seq<DepView>, b: Seq<char>) -> Option<(u32, u32, u32)>
    decreases deps.len(),
{
    if deps.len() == 0 {
        None
    } else if !deps.last().optional && deps.last().plugin == b && deps.last().min is Some {
        deps.last().min
    } else {
        min_in_deps(deps.drop_last(), b)
    }
}

/// The lowest version of `b` that `a` requires: the last requirement
/// stated counts.
pub open spec fn min_required(g: Seq<RecordView>, a: Seq<char>, b: Seq<char>) -> Option<
    (u32, u32, u32),
>
    decreases g.len(),
{
    if g.len() == 0 {
        None
    } else if g.last().id == a && min_in_deps(g.last().deps, b) is Some {
        min_in_deps(g.last().deps, b)
    } else {
        min_required(g.drop_last(), a, b)
    }
}

/// `a` requires `b`, and `b` is not installed.
pub open spec fn missing(g: Seq<RecordView>, a: Seq<char>, b: Seq<char>) -> bool {
    strong(g, a, b) && version_of(g, b) is None
}

/// `a` requires `b` at a version above the installed one.
pub open spec fn conflicting(g: Seq<RecordView>, a: Seq<char>, b: Seq<char>) -> bool {
    &&& strong(g, a, b)
    &&& min_required(g, a, b) is Some
    &&& version_of(g, b) is Some
    &&& version_lt(version_of(g, b)->0, min_required(g, a, b)->0)
}

/// The ids of a list of version conflicts.
pub open spec fn conflict_ids(s: Seq<(PluginId, Version, Version)>) -> Seq<Seq<char>> {
    s.map_values(|c: (PluginId, Version, Version)| c.0@)
}

/// The ids in `s` are in strictly increasing order.
pub open spec fn strictly_sorted(s: Seq<Seq<char>>) -> bool {
    forall|i: int, j: int| 0 <= i < j < s.len() ==> seq_lt(#[trigger] s[i], #[trigger] s[j])
}

/// `s` lists exactly the ids satisfying `p`, in increasing order.
pub open spec fn sorted_listing(s: Seq<Seq<char>>, p: spec_fn(Seq<char>) -> bool) -> bool {
    &&& strictly_sorted(s)
    &&& forall|x: Seq<char>| s.contains(x) <==> #[trigger] p(x)
}

/// The first `i + 1` values hold what the first `i` hold, and `s[i]`.
pub proof fn lemma_take_one_more<A>(s: Seq<A>, i: int)
    requires
        0 <= i < s.len(),
    ensures
        forall|b: A| s.take(i + 1).contains(b) <==> (s.take(i).contains(b) || b == s[i]),
{
    assert forall|b: A| s.take(i + 1).contains(b) <==> (s.take(i).contains(b) || b == s[i]) by {
        if s.take(i + 1).contains(b) {
            let k = choose|k: int| 0 <= k < i + 1 && #[trigger] s.take(i + 1)[k] == b;
            if k < i {
                assert(s.take(i)[k] == b);
            }
        }
        if s.take(i).contains(b) {
            let k = choose|k: int| 0 <= k < i && #[trigger] s.take(i)[k] == b;
            assert(s.take(i + 1)[k] == b);
        }
        if b == s[i] {
            assert(s.take(i + 1)[i] == b);
        }
    }
}

/// `s.push(x)` holds what `s` holds, and `x`.
pub proof fn lemma_push_contains<A>(s: Seq<A>, x: A)
    ensures
        forall|b: A| s.push(x).contains(b) <==> (s.contains(b) || b == x),
{
    assert forall|b: A| s.push(x).contains(b) <==> (s.contains(b) || b == x) by {
        if s.push(x).contains(b) {
            let k = choose|k: int| 0 <= k < s.len() + 1 && #[trigger] s.push(x)[k] == b;
            if k < s.len() {
                assert(s[k] == b);
            }
        }
        if s.contains(b) {
            let k = choose|k: int| 0 <= k < s.len() && #[trigger] s[k] == b;
            assert(s.push(x)[k] == b);
        }
        if b == x {
            assert(s.push(x)[s.len() as int] == b);
        }
    }
}

/// `p` is a chain of required dependencies: each entry requires the next.
pub open spec fn is_chain(g: Seq<RecordView>, p: Seq<Seq<char>>) -> bool {
    &&& p.len() >= 1
    &&& forall|k: int| 0 <= k < p.len() - 1 ==> strong(g, #[trigger] p[k], p[k + 1])
}

/// `x` is one of `targets` or something they require, directly or through
/// others.
pub open spec fn in_closure(g: Seq<RecordView>, targets: Seq<Seq<char>>, x: Seq<char>) -> bool {
    exists|p: Seq<Seq<char>>| #[trigger] is_chain(g, p) && targets.contains(p[0]) && p.last() == x
}

/// The plugins that activating `targets` involves.
pub open spec fn closure_set(g: Seq<RecordView>, targets: Seq<Seq<char>>) -> Set<Seq<char>> {
    Set::new(|x: Seq<char>| in_closure(g, targets, x))
}

/// `x` may come next after `done`: it is in `cl`, not yet placed, and every
/// plugin of `cl` it requires is placed.
pub open spec fn ready(g: Seq<RecordView>, cl: Set<Seq<char>>, done: Seq<Seq<char>>, x: Seq<char>) -> bool {
    &&& cl.contains(x)
    &&& !done.contains(x)
    &&& forall|d: Seq<char>| strong(g, x, d) && cl.contains(d) ==> done.contains(d)
}

/// Each entry of `order` was ready when it was placed, and no ready plugin
/// had a smaller id.
pub open spec fn greedy(g: Seq<RecordView>, cl: Set<Seq<char>>, order: Seq<Seq<char>>) -> bool {
    forall|i: int|
        0 <= i < order.len() ==> ready(g, cl, order.take(i), #[trigger] order[i]) && forall|
            y: Seq<char>,
        | ready(g, cl, order.take(i), y) ==> !seq_lt(y, order[i])
}

/// Nothing more is ready after `order`.
pub open spec fn stuck(g: Seq<RecordView>, cl: Set<Seq<char>>, order: Seq<Seq<char>>) -> bool {
    forall|y: Seq<char>| !ready(g, cl, order, y)
}

/// `part` is a non-empty part of `cl` each of whose plugins requires some
/// plugin of `part`.
pub open spec fn self_contained(g: Seq<RecordView>, cl: Set<Seq<char>>, part: Set<Seq<char>>) -> bool {
    &&& exists|x: Seq<char>| #[trigger] part.contains(x)
    &&& forall|x: Seq<char>|
        part.contains(x) ==> #[trigger] cl.contains(x) && exists|d: Seq<char>|
            part.contains(d) && strong(g, x, d)
}

/// Some non-empty part of `cl` requires only plugins inside itself, so none
/// of it can ever be activated first.
pub open spec fn has_loop(g: Seq<RecordView>, cl: Set<Seq<char>>) -> bool {
    exists|part: Set<Seq<char>>| #[trigger] self_contained(g, cl, part)
}

/// Some plugin in `g` depends on `x`, required or optional.
pub open spec fn mentioned(g: Seq<RecordView>, x: Seq<char>) -> bool {
    exists|i: int, j: int| 0 <= i < g.len() && 0 <= j < g[i].deps.len() && #[trigger] g[i].deps[j].plugin == x
}

/// `b` is a requirement of `a` that is missing or too old.
pub open spec fn unmet_by(g: Seq<RecordView>, a: Seq<char>, b: Seq<char>) -> bool {
    missing(g, a, b) || conflicting(g, a, b)
}

/// `a` requires something missing or too old.
pub open spec fn unmet(g: Seq<RecordView>, a: Seq<char>) -> bool {
    exists|b: Seq<char>| #[trigger] unmet_by(g, a, b)
}

/// `m` satisfies `p`, and nothing satisfying `p` comes before it.
pub open spec fn is_least(p: spec_fn(Seq<char>) -> bool, m: Seq<char>) -> bool {
    p(m) && forall|y: Seq<char>| #[trigger] p(y) ==> !seq_lt(y, m)
}

/// `m` is the least missing requirement of `a`.
pub open spec fn least_missing_at(g: Seq<RecordView>, a: Seq<char>, m: Seq<char>) -> bool {
    missing(g, a, m) && forall|y: Seq<char>| #[trigger] missing(g, a, y) ==> !seq_lt(y, m)
}

/// `m` is the least requirement of `a` installed at too old a version.
pub open spec fn least_conflict_at(g: Seq<RecordView>, a: Seq<char>, m: Seq<char>) -> bool {
    conflicting(g, a, m) && forall|y: Seq<char>| #[trigger] conflicting(g, a, y) ==> !seq_lt(y, m)
}

/// The least missing requirement of `a`.
pub open spec fn least_missing(g: Seq<RecordView>, a: Seq<char>) -> Seq<char> {
    choose|m: Seq<char>| #[trigger] least_missing_at(g, a, m)
}

/// The least requirement of `a` installed at too old a version.
pub open spec fn least_conflict(g: Seq<RecordView>, a: Seq<char>) -> Seq<char> {
    choose|m: Seq<char>| #[trigger] least_conflict_at(g, a, m)
}

/// The error reported for a target `a` whose requirements are not met: its
/// least missing requirement, or else its least one that is too old.
pub open spec fn unmet_error(g: Seq<RecordView>, a: Seq<char>) -> ErrorView {
    if exists|b: Seq<char>| #[trigger] missing(g, a, b) {
        err_view(
            ErrorCode::DependencyMissing,
            about_plugin(
                a,
                " depends on '"@ + least_missing(g, a) + "'"@ + ", which is not installed"@,
            ),
        )
    } else {
        let d = least_conflict(g, a);
        err_view(
            ErrorCode::DependencyMissing,
            about_plugin(
                a,
                " needs '"@ + d + "' >= "@ + version_text(min_required(g, a, d)->0) + ", but "@
                    + version_text(version_of(g, d)->0) + " is installed"@,
            ),
        )
    }
}

/// The order in which the greedy placement of `cl` ends: the ready plugin
/// with the least id placed first, until nothing more is ready.
pub open spec fn greedy_order(g: Seq<RecordView>, cl: Set<Seq<char>>) -> Seq<Seq<char>> {
    choose|o: Seq<Seq<char>>| greedy(g, cl, o) && stuck(g, cl, o)
}

/// The activation order of `targets`, when one exists: every target's
/// requirements are met and the plugins involved contain no loop.
pub open spec fn planned_order(g: Seq<RecordView>, targets: Seq<Seq<char>>) -> Option<Seq<Seq<char>>> {
    if (forall|k: int| 0 <= k < targets.len() ==> !unmet(g, #[trigger] targets[k])) && !has_loop(
        g,
        closure_set(g, targets),
    ) {
        Some(greedy_order(g, closure_set(g, targets)))
    } else {
        None
    }
}

/// The activation order of a list of targets depends only on which plugins
/// it names: neither their order nor repeats change it.
pub proof fn lemma_planned_order_by_set(g: Seq<RecordView>, t1: Seq<Seq<char>>, t2: Seq<Seq<char>>)
    requires
        forall|x: Seq<char>| t1.contains(x) <==> t2.contains(x),
    ensures
        planned_order(g, t1) == planned_order(g, t2),
{
    assert(closure_set(g, t1) =~= closure_set(g, t2)) by {
        assert forall|x: Seq<char>| in_closure(g, t1, x) <==> in_closure(g, t2, x) by {
            if in_closure(g, t1, x) {
                let p = choose|p: Seq<Seq<char>>| #[trigger] is_chain(g, p) && t1.contains(p[0]) && p.last() == x;
                assert(t2.contains(p[0]));
            }
            if in_closure(g, t2, x) {
                let p = choose|p: Seq<Seq<char>>| #[trigger] is_chain(g, p) && t2.contains(p[0]) && p.last() == x;
                assert(t1.contains(p[0]));
            }
        }
    }
    assert((forall|k: int| 0 <= k < t1.len() ==> !unmet(g, #[trigger] t1[k])) <==> (forall|k: int|
        0 <= k < t2.len() ==> !unmet(g, #[trigger] t2[k]))) by {
        if forall|k: int| 0 <= k < t1.len() ==> !unmet(g, #[trigger] t1[k]) {
            assert forall|k: int| 0 <= k < t2.len() implies !unmet(g, #[trigger] t2[k]) by {
                assert(t2.contains(t2[k]));
                assert(t1.contains(t2[k]));
                let j = choose|j: int| 0 <= j < t1.len() && t1[j] == t2[k];
                assert(!unmet(g, t1[j]));
            }
        }
        if forall|k: int| 0 <= k < t2.len() ==> !unmet(g, #[trigger] t2[k]) {
            assert forall|k: int| 0 <= k < t1.len() implies !unmet(g, #[trigger] t1[k]) by {
                assert(t1.contains(t1[k]));
                assert(t2.contains(t1[k]));
                let j = choose|j: int| 0 <= j < t2.len() && t2[j] == t1[k];
                assert(!unmet(g, t2[j]));
            }
        }
    }
}

/// The message of a dependency loop among `left`.
pub open spec fn loop_message(left: Seq<Seq<char>>) -> Seq<char> {
    "dependency cycle detected among: "@ + join(left, ", "@)
}

/// `k` is the first of `targets` whose requirements are not met.
pub open spec fn first_unmet(g: Seq<RecordView>, targets: Seq<Seq<char>>, k: int) -> bool {
    &&& 0 <= k < targets.len()
    &&& unmet(g, targets[k])
    &&& forall|kk: int| 0 <= kk < k ==> !unmet(g, #[trigger] targets[kk])
}

/// `left` lists, in increasing order, the plugins involved that the
/// greedy placement never reached.
pub open spec fn left_over(g: Seq<RecordView>, cl: Set<Seq<char>>, left: Seq<Seq<char>>) -> bool {
    &&& strictly_sorted(left)
    &&& forall|x: Seq<char>|
        left.contains(x) <==> (cl.contains(x) && !greedy_order(g, cl).contains(x))
}

/// `p` is a chain of users: each entry lists the previous one among its
/// dependencies, required or optional.
pub open spec fn is_user_chain(g: Seq<RecordView>, p: Seq<Seq<char>>) -> bool {
    &&& p.len() >= 1
    &&& forall|k: int| 0 <= k < p.len() - 1 ==> uses(g, p[k + 1], #[trigger] p[k])
}

/// The first `n` plugins of `s` come each before every plugin that uses
/// it; each of the others is used by another of them, after `n`.
pub open spec fn users_before(g: Seq<RecordView>, s: Seq<Seq<char>>, n: int) -> bool {
    &&& 0 <= n <= s.len()
    &&& forall|i: int, j: int| #![trigger s[i], s[j]] 0 <= i < n && i < j < s.len() ==> !uses(g, s[j], s[i])
    &&& forall|i: int| n <= i < s.len() ==> #[trigger] used_after(g, s, n, i)
}

/// Another plugin of `s` at or after `n`, not the one at `i`, uses the one at `i`.
pub open spec fn used_after(g: Seq<RecordView>, s: Seq<Seq<char>>, n: int, i: int) -> bool {
    exists|j: int| n <= j < s.len() && j != i && #[trigger] uses(g, s[j], s[i])
}

/// Each item a filter keeps is in the list and passes the filter.
pub proof fn lemma_filter_within(s: Seq<Seq<char>>, p: spec_fn(Seq<char>) -> bool)
    ensures
        forall|i: int|
            0 <= i < s.filter(p).len() ==> s.contains(#[trigger] s.filter(p)[i]) && p(s.filter(p)[i]),
    decreases s.len(),
{
    reveal(Seq::filter);
    if s.len() > 0 {
        let init = s.drop_last();
        lemma_filter_within(init, p);
        let fi = init.filter(p);
        assert forall|i: int| 0 <= i < s.filter(p).len() implies s.contains(
            #[trigger] s.filter(p)[i],
        ) && p(s.filter(p)[i]) by {
            if i < fi.len() {
                assert(s.filter(p)[i] == fi[i]);
                assert(init.contains(fi[i]));
                let k = choose|k: int| 0 <= k < init.len() && init[k] == fi[i];
                assert(s[k] == fi[i]);
            } else {
                assert(s.filter(p)[i] == s.last());
                assert(s[s.len() - 1] == s.last());
            }
        }
    }
}

/// What is left of a strictly sorted list after filtering is strictly
/// sorted.
pub proof fn lemma_filter_sorted(s: Seq<Seq<char>>, p: spec_fn(Seq<char>) -> bool)
    requires
        strictly_sorted(s),
    ensures
        strictly_sorted(s.filter(p)),
    decreases s.len(),
{
    reveal(Seq::filter);
    if s.len() > 0 {
        let init = s.drop_last();
        assert(strictly_sorted(init));
        lemma_filter_sorted(init, p);
        let fi = init.filter(p);
        if p(s.last()) {
            lemma_filter_within(init, p);
            let f = fi.push(s.last());
            assert forall|i: int, j: int| #![trigger f[i], f[j]] 0 <= i < j < f.len() implies seq_lt(f[i], f[j]) by {
                if j == f.len() - 1 {
                    assert(init.contains(fi[i]));
                    let k = choose|k: int| 0 <= k < init.len() && init[k] == fi[i];
                    assert(s[k] == fi[i]);
                    assert(s[s.len() - 1] == s.last());
                } else {
                    assert(f[i] == fi[i]);
                    assert(f[j] == fi[j]);
                }
            }
        }
    }
}

/// Another plugin of `s` than the one at `k` uses it.
pub open spec fn used_by_other(g: Seq<RecordView>, s: Seq<Seq<char>>, k: int) -> bool {
    exists|m: int| 0 <= m < s.len() && m != k && #[trigger] uses(g, s[m], s[k])
}

/// Moving the item at `k` of `rv` to the end of `ov` keeps the items, each
/// once.
proof fn lemma_take_out(ov: Seq<Seq<char>>, rv: Seq<Seq<char>>, k: int, iv: Seq<Seq<char>>)
    requires
        (ov + rv).no_duplicates(),
        forall|y: Seq<char>| (ov + rv).contains(y) <==> iv.contains(y),
        0 <= k < rv.len(),
    ensures
        (ov.push(rv[k]) + rv.remove(k)).no_duplicates(),
        forall|y: Seq<char>| (ov.push(rv[k]) + rv.remove(k)).contains(y) <==> iv.contains(y),
{
    let a = ov + rv;
    let b = ov.push(rv[k]) + rv.remove(k);
    let n = ov.len() as int;
    assert(b.len() == a.len());
    assert forall|p: int| 0 <= p < b.len() implies #[trigger] b[p] == a[
        if p < n {
            p
        } else if p == n {
            n + k
        } else if p - n - 1 < k {
            p - 1
        } else {
            p
        }
    ] by {
        if p > n {
            assert(b[p] == rv.remove(k)[p - n - 1]);
        }
    }
    assert forall|p: int, q: int| 0 <= p < q < b.len() implies b[p] != b[q] by {
        let ia = if p < n {
            p
        } else if p == n {
            n + k
        } else if p - n - 1 < k {
            p - 1
        } else {
            p
        };
        let ib = if q < n {
            q
        } else if q == n {
            n + k
        } else if q - n - 1 < k {
            q - 1
        } else {
            q
        };
        assert(b[p] == a[ia]);
        assert(b[q] == a[ib]);
    }
    assert forall|y: Seq<char>| b.contains(y) <==> iv.contains(y) by {
        if b.contains(y) {
            let p = choose|p: int| 0 <= p < b.len() && b[p] == y;
            let ia = if p < n {
                p
            } else if p == n {
                n + k
            } else if p - n - 1 < k {
                p - 1
            } else {
                p
            };
            assert(b[p] == a[ia]);
            assert(a.contains(y));
        }
        if iv.contains(y) {
            assert(a.contains(y));
            let p = choose|p: int| 0 <= p < a.len() && a[p] == y;
            let ib = if p < n {
                p
            } else if p == n + k {
                n
            } else if p < n + k {
                p + 1
            } else {
                p
            };
            assert(b[ib] == a[p]);
        }
    }
}

/// `s` lists users before the plugins they use, except for a last stretch
/// of plugins that use one another in a loop.
pub open spec fn users_first_order(g: Seq<RecordView>, s: Seq<Seq<char>>) -> bool {
    exists|n: int| #[trigger] users_before(g, s, n)
}

/// `y` is `x` or uses it, directly or through other plugins.
pub open spec fn affected_by(g: Seq<RecordView>, x: Seq<char>, y: Seq<char>) -> bool {
    exists|p: Seq<Seq<char>>| #[trigger] is_user_chain(g, p) && p[0] == x && p.last() == y
}

/// Inserts `x` into the strictly sorted list `v`, unless it is there.
pub fn insert_sorted(v: &mut Vec<PluginId>, x: PluginId)
    requires
        strictly_sorted(keys_of(old(v)@)),
    ensures
        strictly_sorted(keys_of(final(v)@)),
        forall|y: Seq<char>|
            keys_of(final(v)@).contains(y) <==> (keys_of(old(v)@).contains(y) || y == x@),
{
    let ghost before = keys_of(v@);
    let mut pos: usize = 0;
    while pos < v.len() && v[pos].precedes(&x)
        invariant
            pos <= v@.len(),
            keys_of(v@) == before,
            strictly_sorted(before),
            forall|i: int| 0 <= i < pos ==> seq_lt(#[trigger] before[i], x@),
        decreases v@.len() - pos,
    {
        pos = pos + 1;
    }
    if pos < v.len() && v[pos].same(&x) {
        assert(before[pos as int] == x@);
        return;
    }
    proof {
        if pos < before.len() {
            lemma_seq_lt_trichotomy(before[pos as int], x@);
            assert(seq_lt(x@, before[pos as int]));
        }
    }
    v.insert(pos, x);
    proof {
        let after = keys_of(v@);
        assert(after =~= before.take(pos as int).push(x@) + before.skip(pos as int));
        assert forall|i: int, j: int| 0 <= i < j < after.len() implies seq_lt(
            #[trigger] after[i],
            #[trigger] after[j],
        ) by {
            if j < pos {
            } else if i < pos && j == pos {
            } else if i < pos {
                assert(after[j] == before[j - 1]);
                lemma_seq_lt_transitive(after[i], x@, before[pos as int]);
                if j - 1 > pos {
                    lemma_seq_lt_transitive(after[i], before[pos as int], before[j - 1]);
                }
            } else if i == pos {
                assert(after[j] == before[j - 1]);
                if j - 1 > pos {
                    lemma_seq_lt_transitive(x@, before[pos as int], before[j - 1]);
                }
            } else {
                assert(after[i] == before[i - 1]);
                assert(after[j] == before[j - 1]);
            }
        }
        assert forall|y: Seq<char>| after.contains(y) <==> (before.contains(y) || y == x@) by {
            if after.contains(y) {
                let k = choose|k: int| 0 <= k < after.len() && after[k] == y;
                if k < pos {
                    assert(before[k] == y);
                } else if k > pos {
                    assert(before[k - 1] == y);
                }
            }
            if before.contains(y) {
                let k = choose|k: int| 0 <= k < before.len() && before[k] == y;
                if k < pos {
                    assert(after[k] == y);
                } else {
                    assert(after[k + 1] == y);
                }
            }
            if y == x@ {
                assert(after[pos as int] == y);
            }
        }
    }
}

/// An installed plugin as the graph keeps it.
struct PluginRecord {
    id: PluginId,
    version: Version,
    deps: Vec<DependencySpec>,
}

impl View for PluginRecord {
    type V = RecordView;

    closed spec fn view(&self) -> RecordView {
        RecordView {
            id: self.id@,
            version: self.version@,
            deps: deps_view(self.deps@),
        }
    }
}

/// The installed plugins and their dependencies.
pub struct DependencyGraph {
    records: Vec<PluginRecord>,
}

impl View for DependencyGraph {
    type V = Seq<RecordView>;

    closed spec fn view(&self) -> Seq<RecordView> {
        self.records@.map_values(|r: PluginRecord| r@)
    }
}

/// The ids the dependencies in `deps` name, in order.
pub open spec fn providers(deps: Seq<DependencySpec>) -> Seq<Seq<char>> {
    deps.map_values(|d: DependencySpec| d.plugin@)
}

/// What the dependencies in `deps` say.
pub open spec fn deps_view(deps: Seq<DependencySpec>) -> Seq<DepView> {
    deps.map_values(|d: DependencySpec| dep_view(d))
}

/// The ids of the plugins that `manifest` depends on, in declaration order.
pub fn declared_providers(manifest: &Manifest) -> (r: Vec<PluginId>)
    ensures
        keys_of(r@) == providers(manifest.dependencies@),
{
    let mut out: Vec<PluginId> = Vec::new();
    let mut i: usize = 0;
    while i < manifest.dependencies.len()
        invariant
            i <= manifest.dependencies@.len(),
            out@.len() == i,
            forall|k: int| 0 <= k < i ==> (#[trigger] out@[k])@ == manifest.dependencies@[k].plugin@,
        decreases manifest.dependencies@.len() - i,
    {
        out.push(manifest.dependencies[i].plugin.duplicate());
        i = i + 1;
    }
    assert(keys_of(out@) =~= providers(manifest.dependencies@));
    out
}

impl DependencyGraph {
    pub fn new() -> (r: DependencyGraph)
        ensures
            r@ == Seq::<RecordView>::empty(),
    {
        let r = DependencyGraph { records: Vec::new() };
        assert(r@ =~= Seq::<RecordView>::empty());
        r
    }

    fn copy_deps(deps: &Vec<DependencySpec>) -> (r: Vec<DependencySpec>)
        ensures
            deps_view(r@) == deps_view(deps@),
    {
        let mut out: Vec<DependencySpec> = Vec::new();
        let mut i: usize = 0;
        while i < deps.len()
            invariant
                i <= deps@.len(),
                out@.len() == i,
                forall|k: int| 0 <= k < i ==> dep_view(#[trigger] out@[k]) == dep_view(deps@[k]),
            decreases deps@.len() - i,
        {
            out.push(deps[i].duplicate());
            i = i + 1;
        }
        assert(deps_view(out@) =~= deps_view(deps@));
        out
    }

    /// Adds the plugin of `manifest`, with the dependencies it declares.
    pub fn add(&mut self, manifest: &Manifest)
        ensures
            final(self)@ == old(self)@.push(record_of(*manifest)),
    {
        let record = PluginRecord {
            id: manifest.id.duplicate(),
            version: manifest.version,
            deps: DependencyGraph::copy_deps(&manifest.dependencies),
        };
        let ghost before = self.records@;
        self.records.push(record);
        assert(self@ =~= old(self)@.push(record_of(*manifest)));
    }

    /// The graph of the given plugins, each with the dependencies its
    /// manifest declares.
    pub fn build(plugins: &[DiscoveredPlugin]) -> (r: DependencyGraph)
        ensures
            r@ == plugins_view(plugins@),
    {
        let mut records: Vec<PluginRecord> = Vec::new();
        let mut i: usize = 0;
        while i < plugins.len()
            invariant
                i <= plugins@.len(),
                records@.len() == i,
                forall|k: int| 0 <= k < i ==> (#[trigger] records@[k])@ == record_of(plugins@[k].manifest),
            decreases plugins@.len() - i,
        {
            let m = &plugins[i].manifest;
            let record = PluginRecord {
                id: m.id.duplicate(),
                version: m.version,
                deps: DependencyGraph::copy_deps(&m.dependencies),
            };
            records.push(record);
            i = i + 1;
        }
        let r = DependencyGraph { records };
        assert(r@ =~= plugins_view(plugins@));
        r
    }
}

impl DependencyGraph {
    /// The installed version of `x`.
    fn version_lookup(&self, x: &PluginId) -> (r: Option<Version>)
        ensures
            r is Some <==> version_of(self@, x@) is Some,
            r matches Some(v) ==> version_of(self@, x@) == Some(v@),
    {
        let ghost g = self@;
        let mut found: Option<Version> = None;
        let mut i: usize = 0;
        while i < self.records.len()
            invariant
                g == self@,
                i <= self.records@.len(),
                found is Some <==> version_of(g.take(i as int), x@) is Some,
                found matches Some(v) ==> version_of(g.take(i as int), x@) == Some(v@),
            decreases self.records@.len() - i,
        {
            assert(g.take(i + 1).drop_last() =~= g.take(i as int));
            if self.records[i].id.same(x) {
                found = Some(self.records[i].version);
            }
            i = i + 1;
        }
        assert(g.take(i as int) =~= g);
        found
    }

    /// The lowest version of `b` that `a` requires, if any.
    fn min_required_lookup(&self, a: &PluginId, b: &PluginId) -> (r: Option<Version>)
        ensures
            r is Some <==> min_required(self@, a@, b@) is Some,
            r matches Some(v) ==> min_required(self@, a@, b@) == Some(v@),
    {
        let ghost g = self@;
        let mut found: Option<Version> = None;
        let mut i: usize = 0;
        while i < self.records.len()
            invariant
                g == self@,
                i <= self.records@.len(),
                found is Some <==> min_required(g.take(i as int), a@, b@) is Some,
                found matches Some(v) ==> min_required(g.take(i as int), a@, b@) == Some(v@),
            decreases self.records@.len() - i,
        {
            assert(g.take(i + 1).drop_last() =~= g.take(i as int));
            let record = &self.records[i];
            if record.id.same(a) {
                let ghost deps = g[i as int].deps;
                let mut last: Option<Version> = None;
                let mut j: usize = 0;
                while j < record.deps.len()
                    invariant
                        g == self@,
                        i < self.records@.len(),
                        record == self.records@[i as int],
                        deps == g[i as int].deps,
                        deps == deps_view(record.deps@),
                        j <= record.deps@.len(),
                        last is Some <==> min_in_deps(deps.take(j as int), b@) is Some,
                        last matches Some(v) ==> min_in_deps(deps.take(j as int), b@) == Some(v@),
                    decreases record.deps@.len() - j,
                {
                    assert(deps.take(j + 1).drop_last() =~= deps.take(j as int));
                    let d = &record.deps[j];
                    if !d.optional && d.plugin.same(b) {
                        match d.min_version {
                            Some(v) => {
                                last = Some(v);
                            },
                            None => {},
                        }
                    }
                    j = j + 1;
                }
                assert(deps.take(j as int) =~= deps);
                if last.is_some() {
                    found = last;
                }
            }
            i = i + 1;
        }
        assert(g.take(i as int) =~= g);
        found
    }

    /// The ids `a` requires, in increasing order.
    fn strong_deps_of(&self, a: &PluginId) -> (r: Vec<PluginId>)
        ensures
            strictly_sorted(keys_of(r@)),
            forall|b: Seq<char>| keys_of(r@).contains(b) <==> strong(self@, a@, b),
    {
        let ghost g = self@;
        let mut out: Vec<PluginId> = Vec::new();
        let mut i: usize = 0;
        while i < self.records.len()
            invariant
                g == self@,
                i <= self.records@.len(),
                strictly_sorted(keys_of(out@)),
                forall|b: Seq<char>|
                    keys_of(out@).contains(b) <==> exists|ii: int, jj: int|
                        ii < i && #[trigger] strong_at(g, ii, jj, a@, b),
            decreases self.records@.len() - i,
        {
            let record = &self.records[i];
            if record.id.same(a) {
                let mut j: usize = 0;
                while j < record.deps.len()
                    invariant
                        g == self@,
                        i < self.records@.len(),
                        record == self.records@[i as int],
                        g[i as int].deps == deps_view(record.deps@),
                        g[i as int].id == a@,
                        j <= record.deps@.len(),
                        strictly_sorted(keys_of(out@)),
                        forall|b: Seq<char>|
                            keys_of(out@).contains(b) <==> exists|ii: int, jj: int|
                                (ii < i || (ii == i && jj < j)) && #[trigger] strong_at(
                                    g,
                                    ii,
                                    jj,
                                    a@,
                                    b,
                                ),
                    decreases record.deps@.len() - j,
                {
                    let d = &record.deps[j];
                    if !d.optional {
                        let ghost added = d.plugin@;
                        assert(strong_at(g, i as int, j as int, a@, added));
                        insert_sorted(&mut out, d.plugin.duplicate());
                    }
                    j = j + 1;
                }
                assert forall|b: Seq<char>|
                    keys_of(out@).contains(b) <==> exists|ii: int, jj: int|
                        ii < i + 1 && #[trigger] strong_at(g, ii, jj, a@, b) by {
                    if exists|ii: int, jj: int| ii < i + 1 && #[trigger] strong_at(g, ii, jj, a@, b) {
                        let (ii, jj) = choose|ii: int, jj: int|
                            ii < i + 1 && #[trigger] strong_at(g, ii, jj, a@, b);
                        assert((ii < i || (ii == i && jj < j)) && strong_at(g, ii, jj, a@, b));
                    }
                }
            } else {
                assert forall|b: Seq<char>|
                    keys_of(out@).contains(b) <==> exists|ii: int, jj: int|
                        ii < i + 1 && #[trigger] strong_at(g, ii, jj, a@, b) by {
                    if exists|ii: int, jj: int| ii < i + 1 && #[trigger] strong_at(g, ii, jj, a@, b) {
                        let (ii, jj) = choose|ii: int, jj: int|
                            ii < i + 1 && #[trigger] strong_at(g, ii, jj, a@, b);
                        assert(ii < i);
                    }
                }
            }
            i = i + 1;
        }
        assert forall|b: Seq<char>| keys_of(out@).contains(b) <==> strong(g, a@, b) by {
            if strong(g, a@, b) {
                let (ii, jj) = choose|ii: int, jj: int| strong_at(g, ii, jj, a@, b);
                assert(ii < i && strong_at(g, ii, jj, a@, b));
            }
        }
        out
    }

    /// The plugins `a` requires that are not installed, in increasing order.
    pub fn missing_dependencies(&self, plugin: &PluginId) -> (r: Vec<PluginId>)
        ensures
            strictly_sorted(keys_of(r@)),
            forall|b: Seq<char>| keys_of(r@).contains(b) <==> missing(self@, plugin@, b),
    {
        let deps = self.strong_deps_of(plugin);
        let mut out: Vec<PluginId> = Vec::new();
        let mut i: usize = 0;
        while i < deps.len()
            invariant
                i <= deps@.len(),
                strictly_sorted(keys_of(out@)),
                forall|b: Seq<char>| keys_of(deps@).contains(b) <==> strong(self@, plugin@, b),
                forall|b: Seq<char>|
                    keys_of(out@).contains(b) <==> (keys_of(deps@).take(i as int).contains(b)
                        && version_of(self@, b) is None),
            decreases deps@.len() - i,
        {
            let ghost ids = keys_of(deps@);
            assert(ids.take(i + 1) =~= ids.take(i as int).push(ids[i as int]));
            proof {
                lemma_take_one_more(ids, i as int);
            }
            if self.version_lookup(&deps[i]).is_none() {
                insert_sorted(&mut out, deps[i].duplicate());
            }
            i = i + 1;
        }
        assert(keys_of(deps@).take(i as int) =~= keys_of(deps@));
        out
    }

    /// The required plugins that are installed at a version below the one
    /// `plugin` asks for, with the version asked for and the installed one,
    /// in increasing order of id.
    pub fn version_conflicts(&self, plugin: &PluginId) -> (r: Vec<(PluginId, Version, Version)>)
        ensures
            strictly_sorted(conflict_ids(r@)),
            forall|b: Seq<char>|
                conflict_ids(r@).contains(b) <==> conflicting(
                    self@,
                    plugin@,
                    b,
                ),
            forall|k: int|
                0 <= k < r@.len() ==> min_required(self@, plugin@, (#[trigger] r@[k]).0@) == Some(
                    r@[k].1@,
                ) && version_of(self@, r@[k].0@) == Some(r@[k].2@),
    {
        let deps = self.strong_deps_of(plugin);
        let mut out: Vec<(PluginId, Version, Version)> = Vec::new();
        let mut i: usize = 0;
        while i < deps.len()
            invariant
                i <= deps@.len(),
                strictly_sorted(keys_of(deps@)),
                forall|b: Seq<char>| keys_of(deps@).contains(b) <==> strong(self@, plugin@, b),
                strictly_sorted(conflict_ids(out@)),
                out@.len() > 0 ==> exists|m: int|
                    0 <= m < i && #[trigger] keys_of(deps@)[m] == out@.last().0@,
                forall|b: Seq<char>|
                    conflict_ids(out@).contains(b) <==> (
                    keys_of(deps@).take(i as int).contains(b) && conflicting(self@, plugin@, b)),
                forall|k: int|
                    0 <= k < out@.len() ==> min_required(self@, plugin@, (#[trigger] out@[k]).0@)
                        == Some(out@[k].1@) && version_of(self@, out@[k].0@) == Some(out@[k].2@),
            decreases deps@.len() - i,
        {
            let ghost ids = keys_of(deps@);
            let ghost before = conflict_ids(out@);
            assert(ids.take(i + 1) =~= ids.take(i as int).push(ids[i as int]));
            proof {
                lemma_take_one_more(ids, i as int);
            }
            assert(ids.contains(ids[i as int]));
            let required = self.min_required_lookup(plugin, &deps[i]);
            let actual = self.version_lookup(&deps[i]);
            let entry: Option<(Version, Version)> = match (required, actual) {
                (Some(req), Some(act)) => {
                    if act.precedes(&req) {
                        Some((req, act))
                    } else {
                        None
                    }
                },
                _ => None,
            };
            assert(entry is Some <==> conflicting(self@, plugin@, ids[i as int]));
            match entry {
                Some((req, act)) => {
                    out.push((deps[i].duplicate(), req, act));
                    proof {
                        let after = conflict_ids(out@);
                        assert(after =~= before.push(ids[i as int]));
                        lemma_push_contains(before, ids[i as int]);
                        if before.len() > 0 {
                            let m = choose|m: int| 0 <= m < i && #[trigger] ids[m] == before.last();
                            assert(seq_lt(ids[m], ids[i as int]));
                            assert forall|x: int, y: int|
                                0 <= x < y < after.len() implies seq_lt(
                                #[trigger] after[x],
                                #[trigger] after[y],
                            ) by {
                                if y == after.len() - 1 && x < y {
                                    if x < before.len() - 1 {
                                        lemma_seq_lt_transitive(after[x], before.last(), ids[i as int]);
                                    }
                                }
                            }
                        }
                        assert(ids[i as int] == after.last());
                        assert forall|b: Seq<char>|
                            after.contains(b) <==> (ids.take(i + 1).contains(b) && conflicting(
                                self@,
                                plugin@,
                                b,
                            )) by {
                            assert(before.contains(b) <==> (ids.take(i as int).contains(b)
                                && conflicting(self@, plugin@, b)));
                        }
                    }
                },
                None => {
                    assert forall|b: Seq<char>|
                        before.contains(b) <==> (ids.take(i + 1).contains(b) && conflicting(
                            self@,
                            plugin@,
                            b,
                        )) by {
                        assert(before.contains(b) <==> (ids.take(i as int).contains(b)
                            && conflicting(self@, plugin@, b)));
                    }
                },
            }
            i = i + 1;
        }
        assert(keys_of(deps@).take(i as int) =~= keys_of(deps@));
        out
    }

    /// The plugins that list `plugin` among their dependencies, required or
    /// optional, in increasing order.
    pub fn dependents_of(&self, plugin: &PluginId) -> (r: Vec<PluginId>)
        ensures
            strictly_sorted(keys_of(r@)),
            forall|a: Seq<char>| keys_of(r@).contains(a) <==> uses(self@, a, plugin@),
    {
        let ghost g = self@;
        let mut out: Vec<PluginId> = Vec::new();
        let mut i: usize = 0;
        while i < self.records.len()
            invariant
                g == self@,
                i <= self.records@.len(),
                strictly_sorted(keys_of(out@)),
                forall|a: Seq<char>|
                    keys_of(out@).contains(a) <==> exists|ii: int, jj: int|
                        ii < i && #[trigger] uses_at(g, ii, jj, a, plugin@),
            decreases self.records@.len() - i,
        {
            let record = &self.records[i];
            let mut j: usize = 0;
            while j < record.deps.len()
                invariant
                    g == self@,
                    i < self.records@.len(),
                    record == self.records@[i as int],
                    g[i as int].deps == deps_view(record.deps@),
                    g[i as int].id == record.id@,
                    j <= record.deps@.len(),
                    strictly_sorted(keys_of(out@)),
                    forall|a: Seq<char>|
                        keys_of(out@).contains(a) <==> exists|ii: int, jj: int|
                            (ii < i || (ii == i && jj < j)) && #[trigger] uses_at(
                                g,
                                ii,
                                jj,
                                a,
                                plugin@,
                            ),
                decreases record.deps@.len() - j,
            {
                if record.deps[j].plugin.same(plugin) {
                    let ghost added = record.id@;
                    assert(uses_at(g, i as int, j as int, added, plugin@));
                    insert_sorted(&mut out, record.id.duplicate());
                }
                j = j + 1;
            }
            assert forall|a: Seq<char>|
                keys_of(out@).contains(a) <==> exists|ii: int, jj: int|
                    ii < i + 1 && #[trigger] uses_at(g, ii, jj, a, plugin@) by {
                if exists|ii: int, jj: int| ii < i + 1 && #[trigger] uses_at(g, ii, jj, a, plugin@) {
                    let (ii, jj) = choose|ii: int, jj: int|
                        ii < i + 1 && #[trigger] uses_at(g, ii, jj, a, plugin@);
                    assert((ii < i || (ii == i && jj < j)) && uses_at(g, ii, jj, a, plugin@));
                }
            }
            i = i + 1;
        }
        assert forall|a: Seq<char>| keys_of(out@).contains(a) <==> uses(g, a, plugin@) by {
            if uses(g, a, plugin@) {
                let (ii, jj) = choose|ii: int, jj: int| uses_at(g, ii, jj, a, plugin@);
                assert(ii < i && uses_at(g, ii, jj, a, plugin@));
            }
        }
        out
    }

    /// The plugins that cannot run without `plugin`, each once, by id.
    pub fn required_dependents_of(&self, plugin: &PluginId) -> (r: Vec<PluginId>)
        ensures
            strictly_sorted(keys_of(r@)),
            forall|a: Seq<char>| keys_of(r@).contains(a) <==> strong(self@, a, plugin@),
    {
        let ghost g = self@;
        let mut out: Vec<PluginId> = Vec::new();
        let mut i: usize = 0;
        while i < self.records.len()
            invariant
                g == self@,
                i <= self.records@.len(),
                strictly_sorted(keys_of(out@)),
                forall|a: Seq<char>|
                    keys_of(out@).contains(a) <==> exists|ii: int, jj: int|
                        ii < i && #[trigger] strong_at(g, ii, jj, a, plugin@),
            decreases self.records@.len() - i,
        {
            let record = &self.records[i];
            let mut j: usize = 0;
            while j < record.deps.len()
                invariant
                    g == self@,
                    i < self.records@.len(),
                    record == self.records@[i as int],
                    g[i as int].deps == deps_view(record.deps@),
                    g[i as int].id == record.id@,
                    j <= record.deps@.len(),
                    strictly_sorted(keys_of(out@)),
                    forall|a: Seq<char>|
                        keys_of(out@).contains(a) <==> exists|ii: int, jj: int|
                            (ii < i || (ii == i && jj < j)) && #[trigger] strong_at(
                                g,
                                ii,
                                jj,
                                a,
                                plugin@,
                            ),
                decreases record.deps@.len() - j,
            {
                if !record.deps[j].optional && record.deps[j].plugin.same(plugin) {
                    let ghost added = record.id@;
                    assert(strong_at(g, i as int, j as int, added, plugin@));
                    insert_sorted(&mut out, record.id.duplicate());
                }
                j = j + 1;
            }
            assert forall|a: Seq<char>|
                keys_of(out@).contains(a) <==> exists|ii: int, jj: int|
                    ii < i + 1 && #[trigger] strong_at(g, ii, jj, a, plugin@) by {
                if exists|ii: int, jj: int| ii < i + 1 && #[trigger] strong_at(g, ii, jj, a, plugin@) {
                    let (ii, jj) = choose|ii: int, jj: int|
                        ii < i + 1 && #[trigger] strong_at(g, ii, jj, a, plugin@);
                    assert((ii < i || (ii == i && jj < j)) && strong_at(g, ii, jj, a, plugin@));
                }
            }
            i = i + 1;
        }
        assert forall|a: Seq<char>| keys_of(out@).contains(a) <==> strong(g, a, plugin@) by {
            if strong(g, a, plugin@) {
                let (ii, jj) = choose|ii: int, jj: int| strong_at(g, ii, jj, a, plugin@);
                assert(ii < i && strong_at(g, ii, jj, a, plugin@));
            }
        }
        out
    }
}

impl DependencyGraph {
    /// Every plugin some plugin depends on (with repeats).
    fn mentioned_ids(&self) -> (r: Vec<PluginId>)
        ensures
            forall|x: Seq<char>| mentioned(self@, x) ==> keys_of(r@).contains(x),
    {
        let ghost g = self@;
        let mut out: Vec<PluginId> = Vec::new();
        let mut i: usize = 0;
        while i < self.records.len()
            invariant
                g == self@,
                i <= self.records@.len(),
                forall|ii: int, jj: int|
                    0 <= ii < i && 0 <= jj < g[ii].deps.len() ==> keys_of(out@).contains(
                        #[trigger] g[ii].deps[jj].plugin,
                    ),
            decreases self.records@.len() - i,
        {
            let record = &self.records[i];
            let mut j: usize = 0;
            while j < record.deps.len()
                invariant
                    g == self@,
                    i < self.records@.len(),
                    record == self.records@[i as int],
                    g[i as int].deps == deps_view(record.deps@),
                    j <= record.deps@.len(),
                    forall|ii: int, jj: int|
                        ((0 <= ii < i && 0 <= jj < g[ii].deps.len()) || (ii == i && 0 <= jj < j))
                            ==> keys_of(out@).contains(#[trigger] g[ii].deps[jj].plugin),
                decreases record.deps@.len() - j,
            {
                let ghost before = keys_of(out@);
                out.push(record.deps[j].plugin.duplicate());
                proof {
                    assert(keys_of(out@) =~= before.push(g[i as int].deps[j as int].plugin));
                    lemma_push_contains(before, g[i as int].deps[j as int].plugin);
                    assert forall|ii: int, jj: int|
                        ((0 <= ii < i && 0 <= jj < g[ii].deps.len()) || (ii == i && 0 <= jj < j + 1))
                            implies keys_of(out@).contains(#[trigger] g[ii].deps[jj].plugin) by {
                        if ii < i || jj < j {
                            assert(before.contains(g[ii].deps[jj].plugin));
                        } else {
                            let last = keys_of(out@).len() - 1;
                            assert(keys_of(out@)[last] == g[i as int].deps[j as int].plugin);
                        }
                    }
                }
                j = j + 1;
            }
            i = i + 1;
        }
        out
    }

    /// `targets` and everything they require, directly or through others,
    /// each once.
    fn closure_of(&self, targets: &[PluginId]) -> (r: Vec<PluginId>)
        ensures
            keys_of(r@).no_duplicates(),
            forall|x: Seq<char>| keys_of(r@).contains(x) <==> in_closure(self@, keys_of(targets@), x),
    {
        let ghost g = self@;
        let ghost t = keys_of(targets@);
        let universe = self.mentioned_ids();
        let ghost u = t + keys_of(universe@);
        let mut cl: Vec<PluginId> = Vec::new();
        let ghost mut chains: Seq<Seq<Seq<char>>> = Seq::empty();
        let mut k: usize = 0;
        while k < targets.len()
            invariant
                g == self@,
                t == keys_of(targets@),
                k <= targets@.len(),
                keys_of(cl@).no_duplicates(),
                chains.len() == cl@.len(),
                forall|j: int|
                    0 <= j < cl@.len() ==> is_chain(g, #[trigger] chains[j]) && t.contains(
                        chains[j][0],
                    ) && chains[j].last() == cl@[j]@,
                forall|kk: int| 0 <= kk < k ==> keys_of(cl@).contains(#[trigger] t[kk]),
                forall|x: Seq<char>| keys_of(cl@).contains(x) ==> t.contains(x),
            decreases targets@.len() - k,
        {
            let ghost before = keys_of(cl@);
            if !contains_key(&cl, &targets[k]) {
                cl.push(targets[k].duplicate());
                proof {
                    let x = t[k as int];
                    assert(keys_of(cl@) =~= before.push(x));
                    lemma_push_contains(before, x);
                    chains = chains.push(seq![x]);
                    assert(is_chain(g, seq![x]));
                    assert(t.contains(x));
                }
            }
            k = k + 1;
        }
        proof {
            assert forall|x: Seq<char>| keys_of(cl@).contains(x) implies u.contains(x) by {
                assert(t.contains(x));
                let w = choose|w: int| 0 <= w < t.len() && t[w] == x;
                assert(u[w] == x);
            }
            assert(keys_of(cl@).to_set().subset_of(u.to_set()));
            keys_of(cl@).unique_seq_to_set();
            u.lemma_cardinality_of_set();
            vstd::set_lib::lemma_len_subset(keys_of(cl@).to_set(), u.to_set());
        }
        let mut i: usize = 0;
        while i < cl.len()
            invariant
                g == self@,
                t == keys_of(targets@),
                u == t + keys_of(universe@),
                forall|x: Seq<char>| mentioned(g, x) ==> keys_of(universe@).contains(x),
                i <= cl@.len() <= u.len(),
                keys_of(cl@).no_duplicates(),
                chains.len() == cl@.len(),
                forall|j: int|
                    0 <= j < cl@.len() ==> is_chain(g, #[trigger] chains[j]) && t.contains(
                        chains[j][0],
                    ) && chains[j].last() == cl@[j]@,
                forall|x: Seq<char>| t.contains(x) ==> keys_of(cl@).contains(x),
                forall|x: Seq<char>| keys_of(cl@).contains(x) ==> u.contains(x),
                forall|j: int, d: Seq<char>|
                    0 <= j < i && #[trigger] strong(g, cl@[j]@, d) ==> keys_of(cl@).contains(d),
            decreases u.len() - i,
        {
            let deps = self.strong_deps_of(&cl[i]);
            let ghost ci = cl@[i as int]@;
            let mut m: usize = 0;
            while m < deps.len()
                invariant
                    g == self@,
                    t == keys_of(targets@),
                    u == t + keys_of(universe@),
                    forall|x: Seq<char>| mentioned(g, x) ==> keys_of(universe@).contains(x),
                    i < cl@.len() <= u.len(),
                    m <= deps@.len(),
                    ci == cl@[i as int]@,
                    forall|b: Seq<char>| keys_of(deps@).contains(b) <==> strong(g, ci, b),
                    keys_of(cl@).no_duplicates(),
                    chains.len() == cl@.len(),
                    forall|j: int|
                        0 <= j < cl@.len() ==> is_chain(g, #[trigger] chains[j]) && t.contains(
                            chains[j][0],
                        ) && chains[j].last() == cl@[j]@,
                    forall|x: Seq<char>| t.contains(x) ==> keys_of(cl@).contains(x),
                    forall|x: Seq<char>| keys_of(cl@).contains(x) ==> u.contains(x),
                    forall|j: int, d: Seq<char>|
                        0 <= j < i && #[trigger] strong(g, cl@[j]@, d) ==> keys_of(cl@).contains(d),
                    forall|mm: int| 0 <= mm < m ==> keys_of(cl@).contains(#[trigger] keys_of(deps@)[mm]),
                decreases deps@.len() - m,
            {
                let ghost before = keys_of(cl@);
                let ghost d = keys_of(deps@)[m as int];
                assert(keys_of(deps@).contains(d));
                if !contains_key(&cl, &deps[m]) {
                    cl.push(deps[m].duplicate());
                    proof {
                        assert(keys_of(cl@) =~= before.push(d));
                        lemma_push_contains(before, d);
                        let ch = chains[i as int].push(d);
                        assert forall|k: int| 0 <= k < ch.len() - 1 implies strong(
                            g,
                            #[trigger] ch[k],
                            ch[k + 1],
                        ) by {
                            if k < ch.len() - 2 {
                                assert(ch[k] == chains[i as int][k]);
                                assert(ch[k + 1] == chains[i as int][k + 1]);
                            }
                        }
                        chains = chains.push(ch);
                        assert(strong(g, ci, d));
                        let (ii, jj) = choose|ii: int, jj: int| strong_at(g, ii, jj, ci, d);
                        assert(mentioned(g, d)) by {
                            assert(g[ii].deps[jj].plugin == d);
                        }
                        assert(u.contains(d)) by {
                            let w = choose|w: int|
                                0 <= w < keys_of(universe@).len() && keys_of(universe@)[w] == d;
                            assert(u[t.len() + w] == d);
                        }
                        assert(keys_of(cl@).to_set().subset_of(u.to_set()));
                        keys_of(cl@).unique_seq_to_set();
                        u.lemma_cardinality_of_set();
                        vstd::set_lib::lemma_len_subset(keys_of(cl@).to_set(), u.to_set());
                    }
                }
                m = m + 1;
            }
            proof {
                assert forall|j: int, dd: Seq<char>|
                    0 <= j < i + 1 && #[trigger] strong(g, cl@[j]@, dd) implies keys_of(
                    cl@,
                ).contains(dd) by {
                    if j == i {
                        let w = choose|w: int|
                            0 <= w < keys_of(deps@).len() && keys_of(deps@)[w] == dd;
                        assert(keys_of(cl@).contains(keys_of(deps@)[w]));
                    }
                }
            }
            i = i + 1;
        }
        proof {
            assert forall|x: Seq<char>| in_closure(g, t, x) implies keys_of(cl@).contains(x) by {
                let p = choose|p: Seq<Seq<char>>|
                    #[trigger] is_chain(g, p) && t.contains(p[0]) && p.last() == x;
                lemma_chain_stays_in(g, &cl, p, i);
            }
            assert forall|x: Seq<char>| keys_of(cl@).contains(x) implies in_closure(g, t, x) by {
                let j = choose|j: int| 0 <= j < keys_of(cl@).len() && keys_of(cl@)[j] == x;
                assert(is_chain(g, chains[j]));
            }
        }
        cl
    }
}

/// A chain that starts inside a list closed under required dependencies
/// stays inside it.
proof fn lemma_chain_stays_in(g: Seq<RecordView>, cl: &Vec<PluginId>, p: Seq<Seq<char>>, n: usize)
    requires
        n == cl@.len(),
        is_chain(g, p),
        keys_of(cl@).contains(p[0]),
        forall|j: int, d: Seq<char>|
            0 <= j < n && #[trigger] strong(g, cl@[j]@, d) ==> keys_of(cl@).contains(d),
    ensures
        keys_of(cl@).contains(p.last()),
    decreases p.len(),
{
    if p.len() > 1 {
        let q = p.drop_last();
        assert(is_chain(g, q)) by {
            assert forall|k: int| 0 <= k < q.len() - 1 implies strong(g, #[trigger] q[k], q[k + 1]) by {
                assert(q[k] == p[k]);
                assert(strong(g, p[k], p[k + 1]));
            }
        }
        lemma_chain_stays_in(g, cl, q, n);
        let j = choose|j: int| 0 <= j < keys_of(cl@).len() && keys_of(cl@)[j] == q.last();
        assert(strong(g, p[p.len() - 2], p[p.len() - 1]));
        assert(strong(g, cl@[j]@, p.last()));
    }
}

/// The head of a strictly sorted listing is its least entry, and the only
/// least one.
pub proof fn lemma_sorted_head_is_least(s: Seq<Seq<char>>, p: spec_fn(Seq<char>) -> bool)
    requires
        strictly_sorted(s),
        s.len() > 0,
        forall|x: Seq<char>| s.contains(x) <==> #[trigger] p(x),
    ensures
        p(s[0]),
        forall|y: Seq<char>| #[trigger] p(y) ==> !seq_lt(y, s[0]),
        forall|m: Seq<char>| #[trigger] is_least(p, m) ==> m == s[0],
{
    assert(s.contains(s[0]));
    assert forall|y: Seq<char>| #[trigger] p(y) implies !seq_lt(y, s[0]) by {
        let k = choose|k: int| 0 <= k < s.len() && s[k] == y;
        if k == 0 {
            lemma_seq_lt_irreflexive(y);
        } else {
            assert(seq_lt(s[0], s[k]));
            lemma_seq_lt_trichotomy(s[0], y);
        }
    }
    assert forall|m: Seq<char>| #[trigger] is_least(p, m) implies m == s[0] by {
        assert(p(s[0]));
        assert(!seq_lt(s[0], m));
        assert(!seq_lt(m, s[0]));
        lemma_seq_lt_trichotomy(m, s[0]);
    }
}

/// The first entry of `order` that lies in `part`, found searching up to `k`.
proof fn lemma_first_in(order: Seq<Seq<char>>, part: Set<Seq<char>>, k: int) -> (i: int)
    requires
        0 <= k < order.len(),
        part.contains(order[k]),
    ensures
        0 <= i <= k,
        part.contains(order[i]),
        forall|j: int| 0 <= j < i ==> !part.contains(#[trigger] order[j]),
    decreases k,
{
    if exists|j: int| 0 <= j < k && part.contains(#[trigger] order[j]) {
        let j = choose|j: int| 0 <= j < k && part.contains(#[trigger] order[j]);
        lemma_first_in(order, part, j)
    } else {
        k
    }
}

proof fn lemma_complete_has_no_loop(g: Seq<RecordView>, cl: Set<Seq<char>>, order: Seq<Seq<char>>)
    requires
        greedy(g, cl, order),
        forall|x: Seq<char>| cl.contains(x) ==> order.contains(x),
    ensures
        !has_loop(g, cl),
{
    if has_loop(g, cl) {
        let part = choose|part: Set<Seq<char>>| #[trigger] self_contained(g, cl, part);
        let x = choose|x: Seq<char>| #[trigger] part.contains(x);
        assert(cl.contains(x));
        assert(order.contains(x));
        let k = choose|k: int| 0 <= k < order.len() && order[k] == x;
        let i = lemma_first_in(order, part, k);
        let oi = order[i];
        assert(part.contains(oi));
        assert(cl.contains(oi));
        let d = choose|d: Seq<char>| part.contains(d) && strong(g, oi, d);
        assert(cl.contains(d));
        lemma_greedy_respects_requirements(g, cl, order, i, d);
        let j = choose|j: int| 0 <= j < i && order[j] == d;
        assert(!part.contains(order[j]));
    }
}

proof fn lemma_incomplete_has_loop(g: Seq<RecordView>, cl: Set<Seq<char>>, order: Seq<Seq<char>>)
    requires
        stuck(g, cl, order),
        exists|x: Seq<char>| cl.contains(x) && !order.contains(x),
    ensures
        has_loop(g, cl),
{
    let part = Set::new(|x: Seq<char>| cl.contains(x) && !order.contains(x));
    let x0 = choose|x: Seq<char>| cl.contains(x) && !order.contains(x);
    assert(part.contains(x0));
    assert forall|x: Seq<char>|
        part.contains(x) implies #[trigger] cl.contains(x) && exists|d: Seq<char>|
            part.contains(d) && strong(g, x, d) by {
        assert(!ready(g, cl, order, x));
        let d = choose|d: Seq<char>| strong(g, x, d) && cl.contains(d) && !order.contains(d);
        assert(part.contains(d));
    }
    assert(self_contained(g, cl, part));
}

/// A greedy placement that can go no further has placed everything
/// involved exactly when the plugins involved contain no loop.
pub proof fn lemma_complete_iff_no_loop(
    g: Seq<RecordView>,
    cl: Set<Seq<char>>,
    order: Seq<Seq<char>>,
)
    requires
        greedy(g, cl, order),
        stuck(g, cl, order),
    ensures
        (forall|x: Seq<char>| cl.contains(x) ==> order.contains(x)) <==> !has_loop(g, cl),
{
    if forall|x: Seq<char>| cl.contains(x) ==> order.contains(x) {
        lemma_complete_has_no_loop(g, cl, order);
    } else {
        lemma_incomplete_has_loop(g, cl, order);
    }
}

proof fn lemma_greedy_prefix(
    g: Seq<RecordView>,
    cl: Set<Seq<char>>,
    o1: Seq<Seq<char>>,
    o2: Seq<Seq<char>>,
    i: int,
)
    requires
        greedy(g, cl, o1),
        greedy(g, cl, o2),
        0 <= i <= o1.len(),
        i <= o2.len(),
    ensures
        o1.take(i) == o2.take(i),
    decreases i,
{
    if i > 0 {
        let k = i - 1;
        lemma_greedy_prefix(g, cl, o1, o2, k);
        let a = o1[k];
        let b = o2[k];
        assert(ready(g, cl, o1.take(k), a));
        assert(ready(g, cl, o2.take(k), b));
        assert(!seq_lt(b, a));
        assert(!seq_lt(a, b));
        lemma_seq_lt_trichotomy(a, b);
        assert(o1.take(i) =~= o1.take(k).push(a));
        assert(o2.take(i) =~= o2.take(k).push(b));
    } else {
        assert(o1.take(0) =~= o2.take(0));
    }
}

/// Greedy placements that can go no further are all the same.
pub proof fn lemma_greedy_unique(
    g: Seq<RecordView>,
    cl: Set<Seq<char>>,
    o1: Seq<Seq<char>>,
    o2: Seq<Seq<char>>,
)
    requires
        greedy(g, cl, o1),
        stuck(g, cl, o1),
        greedy(g, cl, o2),
        stuck(g, cl, o2),
    ensures
        o1 == o2,
{
    let n = if o1.len() < o2.len() {
        o1.len()
    } else {
        o2.len()
    };
    lemma_greedy_prefix(g, cl, o1, o2, n as int);
    if o1.len() < o2.len() {
        assert(o1.take(n as int) =~= o1);
        assert(ready(g, cl, o2.take(n as int), o2[n as int]));
        assert(false);
    }
    if o2.len() < o1.len() {
        assert(o2.take(n as int) =~= o2);
        assert(ready(g, cl, o1.take(n as int), o1[n as int]));
        assert(false);
    }
    assert(o1 =~= o1.take(n as int));
    assert(o2 =~= o2.take(n as int));
}

/// In a greedy placement every plugin comes after all the plugins involved
/// that it requires.
pub proof fn lemma_greedy_respects_requirements(
    g: Seq<RecordView>,
    cl: Set<Seq<char>>,
    order: Seq<Seq<char>>,
    i: int,
    d: Seq<char>,
)
    requires
        greedy(g, cl, order),
        0 <= i < order.len(),
        strong(g, order[i], d),
        cl.contains(d),
    ensures
        exists|j: int| 0 <= j < i && order[j] == d,
{
    assert(ready(g, cl, order.take(i), order[i]));
    assert(order.take(i).contains(d));
    let j = choose|j: int| 0 <= j < i && order.take(i)[j] == d;
    assert(order[j] == d);
}

/// What an activation order is, as `activation_order` gives one: each
/// plugin involved exactly once, every plugin after all the plugins
/// involved that it requires.
pub proof fn lemma_activation_order_law(g: Seq<RecordView>, targets: Seq<Seq<char>>, order: Seq<Seq<char>>)
    requires
        greedy(g, closure_set(g, targets), order),
        forall|x: Seq<char>| closure_set(g, targets).contains(x) <==> order.contains(x),
    ensures
        order.no_duplicates(),
        forall|i: int, d: Seq<char>|
            0 <= i < order.len() && #[trigger] strong(g, order[i], d) && closure_set(g, targets).contains(d)
                ==> exists|j: int| 0 <= j < i && order[j] == d,
{
    let cl = closure_set(g, targets);
    assert forall|a: int, b: int| 0 <= a < b < order.len() implies order[a] != order[b] by {
        assert(ready(g, cl, order.take(b), order[b]));
        assert(order.take(b)[a] == order[a]);
        if order[a] == order[b] {
            assert(order.take(b).contains(order[b]));
        }
    }
    assert forall|i: int, d: Seq<char>|
        0 <= i < order.len() && #[trigger] strong(g, order[i], d) && cl.contains(d) implies exists|j: int|
        0 <= j < i && order[j] == d by {
        lemma_greedy_respects_requirements(g, cl, order, i, d);
    }
}

/// `ids` joined with `sep`.
pub fn join_ids(ids: &Vec<PluginId>, sep: &str) -> (r: String)
    ensures
        r@ == join(keys_of(ids@), sep@),
{
    let ghost parts = keys_of(ids@);
    let mut out = String::new();
    let mut i: usize = 0;
    while i < ids.len()
        invariant
            parts == keys_of(ids@),
            i <= ids@.len(),
            out@ == join(parts.take(i as int), sep@),
        decreases ids@.len() - i,
    {
        assert(parts.take(i + 1).drop_last() =~= parts.take(i as int));
        if i > 0 {
            out.append(sep);
        }
        out.append(ids[i].as_str());
        i = i + 1;
    }
    assert(parts.take(i as int) =~= parts);
    out
}

impl DependencyGraph {
    /// Whether `x` may come next after `done` among the plugins of `cl`.
    fn is_ready(&self, cl: &Vec<PluginId>, done: &Vec<PluginId>, x: &PluginId) -> (r: bool)
        ensures
            r == ready(self@, keys_of(cl@).to_set(), keys_of(done@), x@),
    {
        let ghost s = keys_of(cl@).to_set();
        if !contains_key(cl, x) || contains_key(done, x) {
            return false;
        }
        let deps = self.strong_deps_of(x);
        let mut m: usize = 0;
        while m < deps.len()
            invariant
                s == keys_of(cl@).to_set(),
                m <= deps@.len(),
                forall|b: Seq<char>| keys_of(deps@).contains(b) <==> strong(self@, x@, b),
                forall|mm: int|
                    0 <= mm < m ==> (s.contains(#[trigger] keys_of(deps@)[mm]) ==> keys_of(
                        done@,
                    ).contains(keys_of(deps@)[mm])),
            decreases deps@.len() - m,
        {
            if contains_key(cl, &deps[m]) && !contains_key(done, &deps[m]) {
                assert(keys_of(deps@).contains(keys_of(deps@)[m as int]));
                return false;
            }
            m = m + 1;
        }
        assert forall|d: Seq<char>| strong(self@, x@, d) && s.contains(d) implies keys_of(
            done@,
        ).contains(d) by {
            assert(keys_of(deps@).contains(d));
            let w = choose|w: int| 0 <= w < keys_of(deps@).len() && keys_of(deps@)[w] == d;
            assert(s.contains(keys_of(deps@)[w]));
        }
        true
    }

    /// The position in `cl` of the least ready plugin, if any is ready.
    fn pick_ready(&self, cl: &Vec<PluginId>, done: &Vec<PluginId>) -> (r: Option<usize>)
        ensures
            r matches Some(b) ==> b < cl@.len() && ready(
                self@,
                keys_of(cl@).to_set(),
                keys_of(done@),
                cl@[b as int]@,
            ) && forall|y: Seq<char>|
                ready(self@, keys_of(cl@).to_set(), keys_of(done@), y) ==> !seq_lt(
                    y,
                    cl@[b as int]@,
                ),
            r is None ==> stuck(self@, keys_of(cl@).to_set(), keys_of(done@)),
    {
        let ghost s = keys_of(cl@).to_set();
        let ghost dv = keys_of(done@);
        let mut best: Option<usize> = None;
        let mut c: usize = 0;
        while c < cl.len()
            invariant
                s == keys_of(cl@).to_set(),
                dv == keys_of(done@),
                c <= cl@.len(),
                best matches Some(b) ==> b < c && ready(self@, s, dv, cl@[b as int]@),
                forall|k: int|
                    0 <= k < c && ready(self@, s, dv, #[trigger] cl@[k]@) ==> (best matches Some(b)
                        && !seq_lt(cl@[k]@, cl@[b as int]@)),
            decreases cl@.len() - c,
        {
            if self.is_ready(cl, done, &cl[c]) {
                match best {
                    Some(b) => {
                        if cl[c].precedes(&cl[b]) {
                            proof {
                                assert forall|k: int|
                                    0 <= k < c + 1 && ready(self@, s, dv, #[trigger] cl@[k]@)
                                        implies !seq_lt(cl@[k]@, cl@[c as int]@) by {
                                    if k < c {
                                        if seq_lt(cl@[k]@, cl@[c as int]@) {
                                            lemma_seq_lt_transitive(
                                                cl@[k]@,
                                                cl@[c as int]@,
                                                cl@[b as int]@,
                                            );
                                        }
                                    } else {
                                        lemma_seq_lt_irreflexive(cl@[k]@);
                                    }
                                }
                            }
                            best = Some(c);
                        }
                    },
                    None => {
                        proof {
                            lemma_seq_lt_irreflexive(cl@[c as int]@);
                        }
                        best = Some(c);
                    },
                }
            }
            c = c + 1;
        }
        proof {
            assert forall|y: Seq<char>| ready(self@, s, dv, y) implies (best matches Some(b)
                && !seq_lt(y, cl@[b as int]@)) by {
                assert(keys_of(cl@).contains(y));
                let k = choose|k: int| 0 <= k < keys_of(cl@).len() && keys_of(cl@)[k] == y;
                assert(ready(self@, s, dv, cl@[k]@));
            }
        }
        best
    }

    /// The greedy placement of the plugins of `cl`: repeatedly the ready
    /// plugin with the least id, until none is ready.
    fn place(&self, cl: &Vec<PluginId>) -> (r: Vec<PluginId>)
        requires
            keys_of(cl@).no_duplicates(),
        ensures
            greedy(self@, keys_of(cl@).to_set(), keys_of(r@)),
            stuck(self@, keys_of(cl@).to_set(), keys_of(r@)),
    {
        let ghost s = keys_of(cl@).to_set();
        let mut order: Vec<PluginId> = Vec::new();
        let mut finished = false;
        proof {
            assert(greedy(self@, s, keys_of(order@)));
        }
        while !finished
            invariant
                s == keys_of(cl@).to_set(),
                keys_of(cl@).no_duplicates(),
                greedy(self@, s, keys_of(order@)),
                finished ==> stuck(self@, s, keys_of(order@)),
                order@.len() <= cl@.len(),
            decreases cl@.len() - order@.len() + (if finished {
                0int
            } else {
                1int
            }),
        {
            match self.pick_ready(cl, &order) {
                None => {
                    finished = true;
                },
                Some(b) => {
                    let ghost before = keys_of(order@);
                    let ghost x = cl@[b as int]@;
                    order.push(cl[b].duplicate());
                    proof {
                        let after = keys_of(order@);
                        assert(after =~= before.push(x));
                        assert forall|i: int| 0 <= i < after.len() implies ready(
                            self@,
                            s,
                            after.take(i),
                            #[trigger] after[i],
                        ) && forall|y: Seq<char>|
                            ready(self@, s, after.take(i), y) ==> !seq_lt(y, after[i]) by {
                            if i < before.len() {
                                assert(after.take(i) =~= before.take(i));
                            } else {
                                assert(after.take(i) =~= before);
                            }
                        }
                        assert(before.no_duplicates()) by {
                            assert forall|i: int, j: int|
                                0 <= i < j < before.len() implies before[i] != before[j] by {
                                assert(ready(self@, s, before.take(j), before[j]));
                                assert(before.take(j)[i] == before[i]);
                            }
                        }
                        assert(after.no_duplicates()) by {
                            lemma_push_contains(before, x);
                        }
                        assert(after.to_set().subset_of(s)) by {
                            assert forall|y: Seq<char>| after.to_set().contains(y) implies s.contains(
                                y,
                            ) by {
                                let i = choose|i: int| 0 <= i < after.len() && after[i] == y;
                                assert(ready(self@, s, after.take(i), after[i]));
                            }
                        }
                        after.unique_seq_to_set();
                        keys_of(cl@).unique_seq_to_set();
                        vstd::set_lib::lemma_len_subset(after.to_set(), s);
                    }
                },
            }
        }
        order
    }
}

impl DependencyGraph {
    /// The error for target `a`, when one of its requirements is missing or
    /// too old.
    fn check_requirements(&self, a: &PluginId) -> (r: Option<PluginError>)
        ensures
            r is Some <==> unmet(self@, a@),
            r matches Some(e) ==> e@ == unmet_error(self@, a@),
    {
        let ghost g = self@;
        let missing_list = self.missing_dependencies(a);
        if missing_list.len() > 0 {
            proof {
                let p = |x: Seq<char>| missing(g, a@, x);
                lemma_sorted_head_is_least(keys_of(missing_list@), p);
                let s0 = keys_of(missing_list@)[0];
                assert(p(s0));
                assert(missing(g, a@, s0));
                assert(unmet_by(g, a@, s0));
                assert forall|y: Seq<char>| #[trigger] missing(g, a@, y) implies !seq_lt(y, s0) by {
                    assert(p(y));
                }
                assert(least_missing_at(g, a@, s0));
                let m = least_missing(g, a@);
                assert(least_missing_at(g, a@, m));
                assert forall|y: Seq<char>| #[trigger] p(y) implies !seq_lt(y, m) by {
                    assert(missing(g, a@, y));
                }
                assert(is_least(p, m));
                assert(m == s0);
            }
            let mut rest = concat3(" depends on '", missing_list[0].as_str(), "'");
            rest.append(", which is not installed");
            return Some(PluginError::dependency_missing(plugin_message(a, rest.as_str())));
        }
        let conflicts = self.version_conflicts(a);
        if conflicts.len() > 0 {
            let ghost ids = conflict_ids(conflicts@);
            proof {
                let p = |x: Seq<char>| conflicting(g, a@, x);
                assert(!exists|b: Seq<char>| #[trigger] missing(g, a@, b)) by {
                    if exists|b: Seq<char>| #[trigger] missing(g, a@, b) {
                        let b = choose|b: Seq<char>| #[trigger] missing(g, a@, b);
                        assert(keys_of(missing_list@).contains(b));
                    }
                }
                lemma_sorted_head_is_least(ids, p);
                let s0 = ids[0];
                assert(p(s0));
                assert(conflicting(g, a@, s0));
                assert(unmet_by(g, a@, s0));
                assert forall|y: Seq<char>| #[trigger] conflicting(g, a@, y) implies !seq_lt(y, s0) by {
                    assert(p(y));
                }
                assert(least_conflict_at(g, a@, s0));
                let m = least_conflict(g, a@);
                assert(least_conflict_at(g, a@, m));
                assert forall|y: Seq<char>| #[trigger] p(y) implies !seq_lt(y, m) by {
                    assert(conflicting(g, a@, y));
                }
                assert(is_least(p, m));
                assert(m == s0);
            }
            let first = &conflicts[0];
            let mut rest = concat3(" needs '", first.0.as_str(), "' >= ");
            rest.append(first.1.to_string().as_str());
            rest.append(", but ");
            rest.append(first.2.to_string().as_str());
            rest.append(" is installed");
            return Some(PluginError::dependency_missing(plugin_message(a, rest.as_str())));
        }
        proof {
            assert(!unmet(g, a@)) by {
                if unmet(g, a@) {
                    let b = choose|b: Seq<char>| #[trigger] unmet_by(g, a@, b);
                    if missing(g, a@, b) {
                        assert(keys_of(missing_list@).contains(b));
                    } else {
                        assert(conflict_ids(conflicts@).contains(b));
                    }
                }
            }
        }
        None
    }

    /// The order in which to activate `targets` and everything they
    /// require: each plugin after the plugins it requires, and among the
    /// plugins ready at a step the one with the least id first. Fails when
    /// a target's requirement is missing or too old (the first such target,
    /// in the given order, is reported), or when the plugins involved
    /// require each other in a loop.
    pub fn activation_order(&self, targets: &[PluginId]) -> (r: PluginResult<Vec<PluginId>>)
        ensures
            r is Ok <==> planned_order(self@, keys_of(targets@)) is Some,
            r matches Ok(o) ==> planned_order(self@, keys_of(targets@)) == Some(keys_of(o@)),
            r matches Ok(o) ==> greedy(self@, closure_set(self@, keys_of(targets@)), keys_of(o@))
                && forall|x: Seq<char>|
                closure_set(self@, keys_of(targets@)).contains(x) <==> keys_of(o@).contains(x),
            forall|k: int| #[trigger]
                first_unmet(self@, keys_of(targets@), k) ==> (r matches Err(e) && e@
                    == unmet_error(self@, keys_of(targets@)[k])),
            (forall|k: int|
                0 <= k < targets@.len() ==> !unmet(self@, #[trigger] keys_of(targets@)[k])) ==> (
            r matches Err(e) ==> exists|left: Seq<Seq<char>>|
                left_over(self@, closure_set(self@, keys_of(targets@)), left) && e@ == err_view(
                    ErrorCode::InvalidArgument,
                    loop_message(left),
                )),
    {
        let ghost g = self@;
        let ghost t = keys_of(targets@);
        let mut k: usize = 0;
        while k < targets.len()
            invariant
                g == self@,
                t == keys_of(targets@),
                k <= targets@.len(),
                forall|kk: int| 0 <= kk < k ==> !unmet(g, #[trigger] t[kk]),
            decreases targets@.len() - k,
        {
            match self.check_requirements(&targets[k]) {
                Some(e) => {
                    proof {
                        assert(first_unmet(g, t, k as int));
                        assert forall|k2: int| #[trigger] first_unmet(g, t, k2) implies k2 == k by {
                            if k2 < k {
                                assert(!unmet(g, t[k2]));
                            } else if k2 > k {
                                assert(!unmet(g, t[k as int]));
                            }
                        }
                        assert(planned_order(g, t) is None);
                    }
                    return Err(e);
                },
                None => {},
            }
            k = k + 1;
        }
        proof {
            assert forall|k2: int| #[trigger] first_unmet(g, t, k2) implies false by {
                assert(!unmet(g, t[k2]));
            }
        }
        let cl = self.closure_of(targets);
        let order = self.place(&cl);
        let ghost s = keys_of(cl@).to_set();
        let ghost ov = keys_of(order@);
        proof {
            assert(s =~= closure_set(g, t));
            lemma_greedy_unique(g, s, ov, greedy_order(g, s));
            assert(greedy_order(g, s) == ov);
            lemma_complete_iff_no_loop(g, s, ov);
        }
        let mut left: Vec<PluginId> = Vec::new();
        let mut c: usize = 0;
        while c < cl.len()
            invariant
                c <= cl@.len(),
                ov == keys_of(order@),
                strictly_sorted(keys_of(left@)),
                forall|x: Seq<char>|
                    #![trigger keys_of(left@).contains(x)]
                    #![trigger keys_of(cl@).take(c as int).contains(x)]
                    keys_of(left@).contains(x) <==> (keys_of(cl@).take(c as int).contains(x)
                        && !ov.contains(x)),
            decreases cl@.len() - c,
        {
            proof {
                lemma_take_one_more(keys_of(cl@), c as int);
            }
            let ghost before = keys_of(left@);
            let ghost x = keys_of(cl@)[c as int];
            let placed = contains_key(&order, &cl[c]);
            if !placed {
                insert_sorted(&mut left, cl[c].duplicate());
            }
            proof {
                assert(placed == ov.contains(x));
                assert(keys_of(cl@).take(c + 1)[c as int] == x);
                assert(keys_of(cl@).take(c + 1).contains(x));
                assert forall|y: Seq<char>|
                    keys_of(left@).contains(y) <==> (keys_of(cl@).take(c + 1).contains(y)
                        && !ov.contains(y)) by {
                    assert(before.contains(y) <==> (keys_of(cl@).take(c as int).contains(y)
                        && !ov.contains(y)));
                    if y == x && placed {
                        assert(!before.contains(y));
                    }
                }
            }
            c = c + 1;
        }
        proof {
            assert(keys_of(cl@).take(c as int) =~= keys_of(cl@));
        }
        if left.len() == 0 {
            proof {
                assert forall|x: Seq<char>| s.contains(x) implies ov.contains(x) by {
                    if !ov.contains(x) {
                        assert(keys_of(left@).contains(x));
                    }
                }
            }
            Ok(order)
        } else {
            proof {
                let x = keys_of(left@)[0];
                assert(keys_of(left@).contains(x));
                assert(keys_of(cl@).contains(x) && !ov.contains(x));
                assert(s.contains(x));
                assert(!(forall|y: Seq<char>| s.contains(y) ==> ov.contains(y)));
                assert(left_over(g, s, keys_of(left@)));
            }
            let mut message = String::from_str("dependency cycle detected among: ");
            message.append(join_ids(&left, ", ").as_str());
            let e = PluginError::invalid_argument(message);
            proof {
                assert(e@ == err_view(ErrorCode::InvalidArgument, loop_message(keys_of(left@))));
            }
            Err(e)
        }
    }

    /// The order in which to deactivate `targets`: the activation order
    /// reversed, or, when there is none, `targets` in their own order.
    pub fn deactivation_order(&self, targets: &[PluginId]) -> (r: Vec<PluginId>)
        ensures
            keys_of(r@) == (match planned_order(self@, keys_of(targets@)) {
                Some(o) => o.reverse(),
                None => keys_of(targets@),
            }),
    {
        match self.activation_order(targets) {
            Ok(forward) => {
                let ghost fv = keys_of(forward@);
                let mut out: Vec<PluginId> = Vec::new();
                let mut i: usize = forward.len();
                while i > 0
                    invariant
                        i <= forward@.len(),
                        fv == keys_of(forward@),
                        out@.len() == forward@.len() - i,
                        forall|k: int|
                            0 <= k < out@.len() ==> (#[trigger] out@[k])@ == fv[fv.len() - 1 - k],
                    decreases i,
                {
                    i = i - 1;
                    out.push(forward[i].duplicate());
                }
                assert(keys_of(out@) =~= fv.reverse());
                out
            },
            Err(_) => {
                let mut copy: Vec<PluginId> = Vec::new();
                let mut i: usize = 0;
                while i < targets.len()
                    invariant
                        i <= targets@.len(),
                        copy@.len() == i,
                        forall|k: int| 0 <= k < i ==> (#[trigger] copy@[k])@ == targets@[k]@,
                    decreases targets@.len() - i,
                {
                    copy.push(targets[i].duplicate());
                    i = i + 1;
                }
                assert(keys_of(copy@) =~= keys_of(targets@));
                copy
            },
        }
    }
}

impl DependencyGraph {
    /// The ids of all installed plugins (with repeats).
    fn record_ids(&self) -> (r: Vec<PluginId>)
        ensures
            forall|i: int| 0 <= i < self@.len() ==> keys_of(r@).contains(#[trigger] self@[i].id),
    {
        let mut out: Vec<PluginId> = Vec::new();
        let mut i: usize = 0;
        while i < self.records.len()
            invariant
                i <= self.records@.len(),
                out@.len() == i,
                forall|k: int| 0 <= k < i ==> (#[trigger] out@[k])@ == self@[k].id,
            decreases self.records@.len() - i,
        {
            out.push(self.records[i].id.duplicate());
            i = i + 1;
        }
        assert forall|k: int| 0 <= k < self@.len() implies keys_of(out@).contains(
            #[trigger] self@[k].id,
        ) by {
            assert(keys_of(out@)[k] == self@[k].id);
        }
        out
    }

    /// Whether some plugin of `rest` other than the one at `k` uses it.
    fn used_within(&self, rest: &Vec<PluginId>, k: usize) -> (r: bool)
        requires
            k < rest@.len(),
        ensures
            r == used_by_other(self@, keys_of(rest@), k as int),
    {
        let ghost rv = keys_of(rest@);
        let users = self.dependents_of(&rest[k]);
        let mut m: usize = 0;
        while m < rest.len()
            invariant
                rv == keys_of(rest@),
                k < rest@.len(),
                m <= rest@.len(),
                forall|a: Seq<char>| keys_of(users@).contains(a) <==> uses(self@, a, rv[k as int]),
                forall|mm: int| 0 <= mm < m && mm != k ==> !uses(self@, #[trigger] rv[mm], rv[k as int]),
            decreases rest@.len() - m,
        {
            if m != k && contains_key(&users, &rest[m]) {
                proof {
                    assert(uses(self@, rv[m as int], rv[k as int]));
                }
                return true;
            }
            m = m + 1;
        }
        false
    }

    /// The first plugin of `rest` that no other plugin of `rest` uses.
    fn first_unused(&self, rest: &Vec<PluginId>) -> (r: Option<usize>)
        ensures
            r matches Some(k) ==> k < rest@.len() && !used_by_other(self@, keys_of(rest@), k as int),
            r is None ==> forall|k: int|
                0 <= k < rest@.len() ==> #[trigger] used_by_other(self@, keys_of(rest@), k),
    {
        let mut k: usize = 0;
        while k < rest.len()
            invariant
                k <= rest@.len(),
                forall|kk: int| 0 <= kk < k ==> #[trigger] used_by_other(self@, keys_of(rest@), kk),
            decreases rest@.len() - k,
        {
            if !self.used_within(rest, k) {
                return Some(k);
            }
            k = k + 1;
        }
        None
    }

    /// `items` reordered so that each plugin comes before those it uses:
    /// a plugin that no remaining one uses is taken out first, the earliest
    /// such; what is left when none is (plugins that use one another in a
    /// loop) follows in its order.
    #[verifier::rlimit(40)]
    fn users_first(&self, items: Vec<PluginId>) -> (r: Vec<PluginId>)
        requires
            keys_of(items@).no_duplicates(),
        ensures
            keys_of(r@).no_duplicates(),
            forall|y: Seq<char>| keys_of(r@).contains(y) <==> keys_of(items@).contains(y),
            users_first_order(self@, keys_of(r@)),
    {
        let ghost g = self@;
        let ghost iv = keys_of(items@);
        let mut rest = items;
        let mut out: Vec<PluginId> = Vec::new();
        proof {
            assert(keys_of(out@) + keys_of(rest@) =~= iv);
        }
        loop
            invariant
                g == self@,
                iv == keys_of(items@),
                (keys_of(out@) + keys_of(rest@)).no_duplicates(),
                forall|y: Seq<char>|
                    (keys_of(out@) + keys_of(rest@)).contains(y) <==> iv.contains(y),
                forall|i: int, j: int|
                    0 <= i < j < out@.len() ==> !uses(g, #[trigger] out@[j]@, #[trigger] out@[i]@),
                forall|i: int, m: int|
                    0 <= i < out@.len() && 0 <= m < rest@.len() ==> !uses(
                        g,
                        #[trigger] rest@[m]@,
                        #[trigger] out@[i]@,
                    ),
            decreases rest@.len(),
        {
            match self.first_unused(&rest) {
                None => {
                    let ghost n = out@.len();
                    let ghost ov = keys_of(out@);
                    let ghost rv = keys_of(rest@);
                    let ghost before = rest@;
                    let ghost outs = out@;
                    out.append(&mut rest);
                    proof {
                        let w = keys_of(out@);
                        assert(w =~= ov + rv);
                        assert forall|i: int, j: int|
                            #![trigger w[i], w[j]]
                            0 <= i < n && i < j < w.len() implies !uses(g, w[j], w[i]) by {
                            assert(w[i] == outs[i]@);
                            if j < n {
                                assert(w[j] == outs[j]@);
                            } else {
                                assert(w[j] == before[j - n]@);
                            }
                        }
                        let nn = n as int;
                        assert forall|i: int| nn <= i < w.len() implies #[trigger] used_after(
                            g,
                            w,
                            nn,
                            i,
                        ) by {
                            assert(used_by_other(g, rv, i - nn));
                            let m = choose|m: int|
                                0 <= m < rv.len() && m != i - nn && #[trigger] uses(g, rv[m], rv[i - nn]);
                            assert(w[nn + m] == rv[m]);
                            assert(w[i] == rv[i - nn]);
                        }
                        assert(users_before(g, w, nn));
                        assert forall|y: Seq<char>| w.contains(y) <==> iv.contains(y) by {
                            assert((ov + rv).contains(y) <==> iv.contains(y));
                        }
                    }
                    return out;
                },
                Some(k) => {
                    let ghost ov = keys_of(out@);
                    let ghost rv = keys_of(rest@);
                    let ghost before = rest@;
                    let ghost outs = out@;
                    let x = rest.remove(k);
                    proof {
                        assert(x == before[k as int]);
                        assert(keys_of(rest@) =~= rv.remove(k as int));
                    }
                    out.push(x);
                    proof {
                        assert(keys_of(out@) =~= ov.push(rv[k as int]));
                        lemma_take_out(ov, rv, k as int, iv);
                        assert(keys_of(out@) + keys_of(rest@) =~= ov.push(rv[k as int]) + rv.remove(
                            k as int,
                        ));
                        assert forall|i: int, j: int|
                            0 <= i < j < out@.len() implies !uses(
                            g,
                            #[trigger] out@[j]@,
                            #[trigger] out@[i]@,
                        ) by {
                            if j < outs.len() {
                                assert(out@[j] == outs[j]);
                                assert(out@[i] == outs[i]);
                            } else {
                                assert(out@[i] == outs[i]);
                                assert(out@[j] == before[k as int]);
                            }
                        }
                        assert forall|i: int, m: int|
                            0 <= i < out@.len() && 0 <= m < rest@.len() implies !uses(
                            g,
                            #[trigger] rest@[m]@,
                            #[trigger] out@[i]@,
                        ) by {
                            let mb = if m < k {
                                m
                            } else {
                                m + 1
                            };
                            assert(rest@[m] == before[mb]);
                            if i < outs.len() {
                                assert(out@[i] == outs[i]);
                            } else {
                                assert(out@[i] == before[k as int]);
                                assert(rv[mb] == before[mb]@);
                                assert(rv[k as int] == before[k as int]@);
                                assert(!uses(g, rv[mb], rv[k as int]));
                            }
                        }
                    }
                },
            }
        }
    }

    /// What unloading `plugin` affects: `plugin` and every plugin that uses
    /// it, directly or through others, each once, `plugin` last and every
    /// user before the plugins it uses (but for users that use one another
    /// in a loop, which come last before `plugin`). The users are found
    /// breadth first, the direct users of a plugin taken in increasing order
    /// of id, and ordered from that list.
    pub fn unload_impact(&self, plugin: &PluginId) -> (r: Vec<PluginId>)
        ensures
            keys_of(r@).no_duplicates(),
            r@.len() >= 1,
            keys_of(r@).last() == plugin@,
            forall|y: Seq<char>| keys_of(r@).contains(y) <==> affected_by(self@, plugin@, y),
            users_first_order(self@, keys_of(r@).drop_last()),
    {
        let ghost g = self@;
        let ids = self.record_ids();
        let ghost u = seq![plugin@] + keys_of(ids@);
        let mut affected: Vec<PluginId> = Vec::new();
        affected.push(plugin.duplicate());
        let ghost mut chains: Seq<Seq<Seq<char>>> = seq![seq![plugin@]];
        proof {
            assert(is_user_chain(g, seq![plugin@]));
            assert(keys_of(affected@) =~= seq![plugin@]);
            assert(u[0] == plugin@);
            assert(keys_of(affected@).to_set().subset_of(u.to_set()));
            keys_of(affected@).unique_seq_to_set();
            u.lemma_cardinality_of_set();
            vstd::set_lib::lemma_len_subset(keys_of(affected@).to_set(), u.to_set());
        }
        let mut i: usize = 0;
        while i < affected.len()
            invariant
                g == self@,
                u == seq![plugin@] + keys_of(ids@),
                forall|k: int| 0 <= k < g.len() ==> keys_of(ids@).contains(#[trigger] g[k].id),
                i <= affected@.len() <= u.len(),
                affected@.len() >= 1,
                keys_of(affected@)[0] == plugin@,
                keys_of(affected@).no_duplicates(),
                forall|y: Seq<char>| keys_of(affected@).contains(y) ==> u.contains(y),
                chains.len() == affected@.len(),
                forall|j: int|
                    0 <= j < affected@.len() ==> is_user_chain(g, #[trigger] chains[j])
                        && chains[j][0] == plugin@ && chains[j].last() == affected@[j]@,
                forall|j: int, y: Seq<char>|
                    0 <= j < i && #[trigger] uses(g, y, affected@[j]@) ==> keys_of(
                        affected@,
                    ).contains(y),
                forall|k: int|
                    0 < k < affected@.len() ==> exists|j: int|
                        0 <= j < k && uses(g, #[trigger] affected@[k]@, affected@[j]@),
            decreases u.len() - i,
        {
            let users = self.dependents_of(&affected[i]);
            let ghost ai = affected@[i as int]@;
            let mut m: usize = 0;
            while m < users.len()
                invariant
                    g == self@,
                    u == seq![plugin@] + keys_of(ids@),
                    forall|k: int| 0 <= k < g.len() ==> keys_of(ids@).contains(#[trigger] g[k].id),
                    i < affected@.len() <= u.len(),
                    keys_of(affected@)[0] == plugin@,
                    m <= users@.len(),
                    ai == affected@[i as int]@,
                    forall|y: Seq<char>| keys_of(users@).contains(y) <==> uses(g, y, ai),
                    keys_of(affected@).no_duplicates(),
                    forall|y: Seq<char>| keys_of(affected@).contains(y) ==> u.contains(y),
                    chains.len() == affected@.len(),
                    forall|j: int|
                        0 <= j < affected@.len() ==> is_user_chain(g, #[trigger] chains[j])
                            && chains[j][0] == plugin@ && chains[j].last() == affected@[j]@,
                    forall|j: int, y: Seq<char>|
                        0 <= j < i && #[trigger] uses(g, y, affected@[j]@) ==> keys_of(
                            affected@,
                        ).contains(y),
                    forall|k: int|
                        0 < k < affected@.len() ==> exists|j: int|
                            0 <= j < k && uses(g, #[trigger] affected@[k]@, affected@[j]@),
                    forall|mm: int|
                        0 <= mm < m ==> keys_of(affected@).contains(#[trigger] keys_of(users@)[mm]),
                decreases users@.len() - m,
            {
                let ghost before = keys_of(affected@);
                let ghost old_aff = affected@;
                let ghost y = keys_of(users@)[m as int];
                assert(keys_of(users@).contains(y));
                assert(uses(g, y, ai));
                if !contains_key(&affected, &users[m]) {
                    affected.push(users[m].duplicate());
                    proof {
                        let n = before.len();
                        assert(keys_of(affected@) =~= before.push(y));
                        lemma_push_contains(before, y);
                        let ch = chains[i as int].push(y);
                        assert forall|k: int| 0 <= k < ch.len() - 1 implies uses(
                            g,
                            ch[k + 1],
                            #[trigger] ch[k],
                        ) by {
                            if k < ch.len() - 2 {
                                assert(ch[k] == chains[i as int][k]);
                                assert(ch[k + 1] == chains[i as int][k + 1]);
                            }
                        }
                        chains = chains.push(ch);
                        let (ii, jj) = choose|ii: int, jj: int| uses_at(g, ii, jj, y, ai);
                        assert(keys_of(ids@).contains(g[ii].id));
                        assert(u.contains(y)) by {
                            let w = choose|w: int|
                                0 <= w < keys_of(ids@).len() && keys_of(ids@)[w] == y;
                            assert(u[1 + w] == y);
                        }
                        assert(uses(g, affected@[n as int]@, affected@[i as int]@));
                        assert forall|k: int| 0 < k < affected@.len() implies exists|j: int|
                            0 <= j < k && uses(g, #[trigger] affected@[k]@, affected@[j]@) by {
                            if k < n {
                                let j = choose|j: int|
                                    0 <= j < k && uses(g, #[trigger] old_aff[k]@, old_aff[j]@);
                                assert(affected@[k] == old_aff[k]);
                                assert(affected@[j] == old_aff[j]);
                            } else {
                                assert(uses(g, affected@[k]@, affected@[i as int]@));
                            }
                        }
                        assert(keys_of(affected@).to_set().subset_of(u.to_set()));
                        keys_of(affected@).unique_seq_to_set();
                        u.lemma_cardinality_of_set();
                        vstd::set_lib::lemma_len_subset(keys_of(affected@).to_set(), u.to_set());
                    }
                }
                m = m + 1;
            }
            proof {
                assert forall|j: int, yy: Seq<char>|
                    0 <= j < i + 1 && #[trigger] uses(g, yy, affected@[j]@) implies keys_of(
                    affected@,
                ).contains(yy) by {
                    if j == i {
                        assert(keys_of(users@).contains(yy));
                        let w = choose|w: int|
                            0 <= w < keys_of(users@).len() && keys_of(users@)[w] == yy;
                        assert(keys_of(affected@).contains(keys_of(users@)[w]));
                    }
                }
            }
            i = i + 1;
        }
        proof {
            assert forall|y: Seq<char>| affected_by(g, plugin@, y) implies keys_of(
                affected@,
            ).contains(y) by {
                let p = choose|p: Seq<Seq<char>>|
                    #[trigger] is_user_chain(g, p) && p[0] == plugin@ && p.last() == y;
                assert(keys_of(affected@)[0] == p[0]);
                lemma_user_chain_stays_in(g, &affected, p, i);
            }
            assert forall|y: Seq<char>| keys_of(affected@).contains(y) implies affected_by(
                g,
                plugin@,
                y,
            ) by {
                let j = choose|j: int| 0 <= j < keys_of(affected@).len() && keys_of(affected@)[j] == y;
                assert(is_user_chain(g, chains[j]));
            }
        }
        let ghost av = keys_of(affected@);
        let mut tail: Vec<PluginId> = Vec::new();
        let mut k: usize = 1;
        while k < affected.len()
            invariant
                1 <= k <= affected@.len(),
                av == keys_of(affected@),
                tail@.len() == k - 1,
                forall|q: int| 0 <= q < tail@.len() ==> (#[trigger] tail@[q])@ == av[q + 1],
            decreases affected@.len() - k,
        {
            tail.push(affected[k].duplicate());
            k = k + 1;
        }
        proof {
            assert(keys_of(tail@) =~= av.subrange(1, av.len() as int));
        }
        let mut out = self.users_first(tail);
        let ghost ov = keys_of(out@);
        out.push(plugin.duplicate());
        proof {
            let rv = keys_of(out@);
            let tv = av.subrange(1, av.len() as int);
            assert(rv =~= ov.push(plugin@));
            assert(rv.drop_last() =~= ov);
            assert(!tv.contains(plugin@)) by {
                if tv.contains(plugin@) {
                    let q = choose|q: int| 0 <= q < tv.len() && tv[q] == plugin@;
                    assert(av[q + 1] == av[0]);
                }
            }
            assert(!ov.contains(plugin@));
            assert forall|a: int, b: int| 0 <= a < b < rv.len() implies rv[a] != rv[b] by {
                if b == rv.len() - 1 {
                    assert(ov.contains(rv[a]));
                }
            }
            assert forall|y: Seq<char>| rv.contains(y) <==> av.contains(y) by {
                if rv.contains(y) && y != plugin@ {
                    let q = choose|q: int| 0 <= q < rv.len() && rv[q] == y;
                    assert(ov.contains(y));
                    assert(tv.contains(y));
                    let w = choose|w: int| 0 <= w < tv.len() && tv[w] == y;
                    assert(av[w + 1] == y);
                }
                if av.contains(y) && y != plugin@ {
                    let q = choose|q: int| 0 <= q < av.len() && av[q] == y;
                    assert(q != 0);
                    assert(tv[q - 1] == y);
                    assert(ov.contains(y));
                    let w = choose|w: int| 0 <= w < ov.len() && ov[w] == y;
                    assert(rv[w] == y);
                }
                if y == plugin@ {
                    assert(rv[rv.len() - 1] == y);
                    assert(av[0] == y);
                }
            }
        }
        out
    }
}

/// A chain of users that starts inside a list closed under users stays
/// inside it.
proof fn lemma_user_chain_stays_in(
    g: Seq<RecordView>,
    list: &Vec<PluginId>,
    p: Seq<Seq<char>>,
    n: usize,
)
    requires
        n == list@.len(),
        is_user_chain(g, p),
        keys_of(list@).contains(p[0]),
        forall|j: int, y: Seq<char>|
            0 <= j < n && #[trigger] uses(g, y, list@[j]@) ==> keys_of(list@).contains(y),
    ensures
        keys_of(list@).contains(p.last()),
    decreases p.len(),
{
    if p.len() > 1 {
        let q = p.drop_last();
        assert(is_user_chain(g, q)) by {
            assert forall|k: int| 0 <= k < q.len() - 1 implies uses(g, q[k + 1], #[trigger] q[k]) by {
                assert(q[k] == p[k]);
                assert(q[k + 1] == p[k + 1]);
            }
        }
        lemma_user_chain_stays_in(g, list, q, n);
        let j = choose|j: int| 0 <= j < keys_of(list@).len() && keys_of(list@)[j] == q.last();
        assert(uses(g, p[p.len() - 1], p[p.len() - 2]));
        assert(uses(g, p.last(), list@[j]@));
    }
}

} // verus!
