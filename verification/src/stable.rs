//! The bundle does not depend on the order in which the modules were found
//! and their specifiers resolved: the modules are written in the order of
//! their paths, and the dependencies of each in the order of their names.

use vstd::prelude::*;
use crate::modules::{named_once, DepView};
use crate::path_ext::{
    before,
    lemma_before_asymmetric,
    lemma_before_total,
    lemma_text_lt_asymmetric,
    lemma_text_lt_total,
    lemma_text_lt_transitive,
    same_path,
    text_lt,
};
use crate::writer::{
    by_name,
    by_name_upto,
    chunk,
    chunks,
    contents_upto,
    files_of,
    lemma_insert_ordered,
    lemma_sorted_all,
    maps_upto,
    modules_lines,
    ordered,
    place,
    slot,
    sorted,
    sorted_all,
    sorted_upto,
    sources_upto,
    BundledView,
    Writer,
};

verus! {

/// Two sequences in strict order that hold the same members are the same
/// sequence.
pub proof fn lemma_sorted_unique<T>(x: Seq<T>, y: Seq<T>, lt: spec_fn(T, T) -> bool)
    requires
        forall|a: T, b: T| #[trigger] lt(a, b) ==> !lt(b, a),
        forall|i: int, j: int| 0 <= i < j < x.len() ==> lt(#[trigger] x[i], #[trigger] x[j]),
        forall|i: int, j: int| 0 <= i < j < y.len() ==> lt(#[trigger] y[i], #[trigger] y[j]),
        forall|i: int| 0 <= i < x.len() ==> y.contains(#[trigger] x[i]),
        forall|i: int| 0 <= i < y.len() ==> x.contains(#[trigger] y[i]),
    ensures
        x == y,
    decreases x.len(),
{
    if x.len() == 0 {
        if y.len() > 0 {
            assert(x.contains(y[0]));
        }
        assert(x =~= y);
    } else if y.len() == 0 {
        assert(y.contains(x[0]));
    } else {
        assert(y.contains(x[0]));
        let j = choose|j: int| 0 <= j < y.len() && y[j] == x[0];
        assert(x.contains(y[0]));
        let i = choose|i: int| 0 <= i < x.len() && x[i] == y[0];
        if j > 0 {
            assert(lt(y[0], y[j]));
            if i > 0 {
                assert(lt(x[0], x[i]));
            }
        }
        assert(x[0] == y[0]);
        let xs = x.subrange(1, x.len() as int);
        let ys = y.subrange(1, y.len() as int);
        assert forall|a: int, b: int| 0 <= a < b < xs.len() implies lt(
            #[trigger] xs[a],
            #[trigger] xs[b],
        ) by {
            assert(lt(x[a + 1], x[b + 1]));
        }
        assert forall|a: int, b: int| 0 <= a < b < ys.len() implies lt(
            #[trigger] ys[a],
            #[trigger] ys[b],
        ) by {
            assert(lt(y[a + 1], y[b + 1]));
        }
        assert forall|a: int| 0 <= a < xs.len() implies ys.contains(#[trigger] xs[a]) by {
            assert(xs[a] == x[a + 1]);
            assert(y.contains(x[a + 1]));
            let e = choose|e: int| 0 <= e < y.len() && y[e] == x[a + 1];
            if e == 0 {
                assert(lt(x[0], x[a + 1]));
            }
            assert(ys[e - 1] == y[e]);
        }
        assert forall|a: int| 0 <= a < ys.len() implies xs.contains(#[trigger] ys[a]) by {
            assert(ys[a] == y[a + 1]);
            assert(x.contains(y[a + 1]));
            let e = choose|e: int| 0 <= e < x.len() && x[e] == y[a + 1];
            if e == 0 {
                assert(lt(y[0], y[a + 1]));
            }
            assert(xs[e - 1] == x[e]);
        }
        lemma_sorted_unique(xs, ys, lt);
        assert(x =~= seq![x[0]] + xs);
        assert(y =~= seq![y[0]] + ys);
    }
}

/// Whether two lists hold the same dependencies, in whatever order.
pub open spec fn same_deps(x: Seq<DepView>, y: Seq<DepView>) -> bool {
    &&& forall|i: int| 0 <= i < x.len() ==> y.contains(#[trigger] x[i])
    &&& forall|i: int| 0 <= i < y.len() ==> x.contains(#[trigger] y[i])
}

/// Where a dependency goes lies behind all members that its name does not
/// come before, and before one that it comes before.
pub proof fn lemma_place(sorted: Seq<DepView>, name: Seq<char>, k: nat)
    requires
        k <= sorted.len(),
    ensures
        k <= place(sorted, name, k) <= sorted.len(),
        forall|e: int|
            k <= e < place(sorted, name, k) ==> !text_lt(name, (#[trigger] sorted[e]).name, 0),
        place(sorted, name, k) < sorted.len() ==> text_lt(
            name,
            sorted[place(sorted, name, k) as int].name,
            0,
        ),
    decreases sorted.len() - k,
{
    if k < sorted.len() && !text_lt(name, sorted[k as int].name, 0) {
        lemma_place(sorted, name, k + 1);
    }
}

/// Whether each name comes before the names behind it.
pub open spec fn rising(sorted: Seq<DepView>) -> bool {
    forall|a: int, b: int|
        0 <= a < b < sorted.len() ==> text_lt(
            (#[trigger] sorted[a]).name,
            (#[trigger] sorted[b]).name,
            0,
        )
}

/// A dependency that is put behind the names before its own, and before
/// the names behind its own, leaves the names rising.
pub proof fn lemma_insert_rising(sorted: Seq<DepView>, x: DepView, j: int)
    requires
        rising(sorted),
        0 <= j <= sorted.len(),
        forall|e: int| 0 <= e < j ==> text_lt((#[trigger] sorted[e]).name, x.name, 0),
        j < sorted.len() ==> text_lt(x.name, sorted[j].name, 0),
    ensures
        rising(sorted.insert(j, x)),
{
    let s = sorted.insert(j, x);
    assert forall|a: int, b: int| 0 <= a < b < s.len() implies text_lt(
        (#[trigger] s[a]).name,
        (#[trigger] s[b]).name,
        0,
    ) by {
        if b == j {
            assert(s[a] == sorted[a]);
        } else if a == j {
            assert(s[b] == sorted[b - 1]);
            if b - 1 > j {
                assert(text_lt(sorted[j].name, sorted[b - 1].name, 0));
                lemma_text_lt_transitive(x.name, sorted[j].name, sorted[b - 1].name, 0);
            }
        } else {
            let a0 = if a < j {
                a
            } else {
                a - 1
            };
            let b0 = if b < j {
                b
            } else {
                b - 1
            };
            assert(s[a] == sorted[a0]);
            assert(s[b] == sorted[b0]);
        }
    }
}

/// The first `k` dependencies in the order of their names are the first
/// `k` dependencies.
pub proof fn lemma_by_name_members(deps: Seq<DepView>, k: nat)
    requires
        k <= deps.len(),
    ensures
        by_name_upto(deps, k).len() == k,
        forall|i: int| 0 <= i < k ==> by_name_upto(deps, k).contains(#[trigger] deps[i]),
        forall|e: int|
            0 <= e < k ==> deps.subrange(0, k as int).contains(#[trigger] by_name_upto(deps, k)[e]),
    decreases k,
{
    if k > 0 {
        lemma_by_name_members(deps, (k - 1) as nat);
        let s0 = by_name_upto(deps, (k - 1) as nat);
        let x = deps[k - 1];
        lemma_place(s0, x.name, 0);
        let j = place(s0, x.name, 0) as int;
        let s = s0.insert(j, x);
        let prior = deps.subrange(0, k - 1);
        let upto = deps.subrange(0, k as int);
        assert(s == by_name_upto(deps, k));
        assert forall|e: int| 0 <= e < k implies upto.contains(#[trigger] s[e]) by {
            if e == j {
                assert(upto[k - 1] == x);
            } else {
                let e0 = if e < j {
                    e
                } else {
                    e - 1
                };
                assert(s[e] == s0[e0]);
                assert(prior.contains(s0[e0]));
                let i = choose|i: int| 0 <= i < prior.len() && #[trigger] prior[i] == s0[e0];
                assert(upto[i] == s0[e0]);
            }
        }
        assert forall|i: int| 0 <= i < k implies s.contains(#[trigger] deps[i]) by {
            if i == k - 1 {
                assert(s[j] == x);
            } else {
                assert(s0.contains(deps[i]));
                let e = choose|e: int| 0 <= e < s0.len() && s0[e] == deps[i];
                if e < j {
                    assert(s[e] == s0[e]);
                } else {
                    assert(s[e + 1] == s0[e]);
                }
            }
        }
    }
}

/// The first `k` dependencies in the order of their names: each name
/// before the names behind it.
pub proof fn lemma_by_name_rising(deps: Seq<DepView>, k: nat)
    requires
        k <= deps.len(),
        named_once(deps),
    ensures
        rising(by_name_upto(deps, k)),
    decreases k,
{
    if k > 0 {
        lemma_by_name_rising(deps, (k - 1) as nat);
        lemma_by_name_members(deps, (k - 1) as nat);
        let s0 = by_name_upto(deps, (k - 1) as nat);
        let x = deps[k - 1];
        lemma_place(s0, x.name, 0);
        let j = place(s0, x.name, 0) as int;
        let prior = deps.subrange(0, k - 1);
        assert forall|e: int| 0 <= e < j implies text_lt((#[trigger] s0[e]).name, x.name, 0) by {
            assert(prior.contains(s0[e]));
            let i = choose|i: int| 0 <= i < prior.len() && #[trigger] prior[i] == s0[e];
            assert(deps[i].name != deps[k - 1].name);
            lemma_text_lt_total(s0[e].name, x.name, 0);
        }
        lemma_insert_rising(s0, x, j);
    }
}

/// The order of the names does not depend on the order in which the
/// dependencies are given.
pub proof fn lemma_by_name_same(x: Seq<DepView>, y: Seq<DepView>)
    requires
        named_once(x),
        named_once(y),
        same_deps(x, y),
    ensures
        by_name(x) == by_name(y),
{
    let lt = |a: DepView, b: DepView| text_lt(a.name, b.name, 0);
    let sx = by_name(x);
    let sy = by_name(y);
    lemma_by_name_members(x, x.len());
    lemma_by_name_members(y, y.len());
    lemma_by_name_rising(x, x.len());
    lemma_by_name_rising(y, y.len());
    assert(x.subrange(0, x.len() as int) =~= x);
    assert(y.subrange(0, y.len() as int) =~= y);
    assert forall|a: DepView, b: DepView| #[trigger] lt(a, b) implies !lt(b, a) by {
        lemma_text_lt_asymmetric(a.name, b.name, 0);
    }
    assert forall|i: int| 0 <= i < sx.len() implies sy.contains(#[trigger] sx[i]) by {
        assert(x.contains(sx[i]));
        let e = choose|e: int| 0 <= e < x.len() && x[e] == sx[i];
        assert(y.contains(x[e]));
        let f = choose|f: int| 0 <= f < y.len() && y[f] == x[e];
        assert(sy.contains(y[f]));
    }
    assert forall|i: int| 0 <= i < sy.len() implies sx.contains(#[trigger] sy[i]) by {
        assert(y.contains(sy[i]));
        let e = choose|e: int| 0 <= e < y.len() && y[e] == sy[i];
        assert(x.contains(y[e]));
        let f = choose|f: int| 0 <= f < x.len() && x[f] == y[e];
        assert(sx.contains(x[f]));
    }
    assert forall|i: int, j: int| 0 <= i < j < sx.len() implies lt(
        #[trigger] sx[i],
        #[trigger] sx[j],
    ) by {
        assert(text_lt(sx[i].name, sx[j].name, 0));
    }
    assert forall|i: int, j: int| 0 <= i < j < sy.len() implies lt(
        #[trigger] sy[i],
        #[trigger] sy[j],
    ) by {
        assert(text_lt(sy[i].name, sy[j].name, 0));
    }
    lemma_sorted_unique(sx, sy, lt);
}

/// Where an index goes lies behind all members that its path does not
/// come before, and before one that it comes before.
pub proof fn lemma_slot(order: Seq<int>, files: Seq<Seq<char>>, x: int, k: nat)
    requires
        k <= order.len(),
    ensures
        k <= slot(order, files, x, k) <= order.len(),
        forall|e: int|
            k <= e < slot(order, files, x, k) ==> !before(files[x], files[#[trigger] order[e]]),
        slot(order, files, x, k) < order.len() ==> before(
            files[x],
            files[order[slot(order, files, x, k) as int]],
        ),
    decreases order.len() - k,
{
    if k < order.len() && !before(files[x], files[order[k as int]]) {
        lemma_slot(order, files, x, k + 1);
    }
}

/// The first `k` indices in the order of their paths: each of them once,
/// none before one whose path comes before its own.
pub proof fn lemma_sorted_upto(files: Seq<Seq<char>>, k: nat)
    requires
        k <= files.len(),
    ensures
        sorted_upto(files, k).len() == k,
        ordered(sorted_upto(files, k), files, k as int),
        forall|x: int| 0 <= x < k ==> #[trigger] sorted_upto(files, k).contains(x),
    decreases k,
{
    if k > 0 {
        lemma_sorted_upto(files, (k - 1) as nat);
        let o = sorted_upto(files, (k - 1) as nat);
        lemma_slot(o, files, k - 1, 0);
        let j = slot(o, files, k - 1, 0) as int;
        lemma_insert_ordered(o, files, k - 1, j, k - 1);
        let s = o.insert(j, k - 1);
        assert(s == sorted_upto(files, k));
        assert forall|x: int| 0 <= x < k implies #[trigger] s.contains(x) by {
            if x == k - 1 {
                assert(s[j] == x);
            } else {
                assert(o.contains(x));
                let e = choose|e: int| 0 <= e < o.len() && o[e] == x;
                if e < j {
                    assert(s[e] == o[e]);
                } else {
                    assert(s[e + 1] == o[e]);
                }
            }
        }
    } else {
        assert(ordered(sorted_upto(files, 0), files, 0));
    }
}

/// Whether two modules are the same module: the same path, the same text,
/// and the same dependencies, in whatever order.
pub open spec fn same_module(x: BundledView, y: BundledView) -> bool {
    &&& x.file == y.file
    &&& x.module.source == y.module.source
    &&& same_deps(x.module.deps, y.module.deps)
}

/// Whether `m` is among the modules.
pub open spec fn has_module(modules: Seq<BundledView>, m: BundledView) -> bool {
    exists|j: int| 0 <= j < modules.len() && same_module(m, #[trigger] modules[j])
}

/// Whether two lists hold the same modules, in whatever order.
pub open spec fn same_modules(a: Seq<BundledView>, b: Seq<BundledView>) -> bool {
    &&& forall|i: int| 0 <= i < a.len() ==> has_module(b, #[trigger] a[i])
    &&& forall|i: int| 0 <= i < b.len() ==> has_module(a, #[trigger] b[i])
}

/// Whether the modules are those of a map from paths to modules and the
/// dependencies of each those of a map from names: no two modules have the
/// same path, and no module has two dependencies of one name. The paths
/// are no longer than a text can be.
pub open spec fn keyed(modules: Seq<BundledView>) -> bool {
    &&& forall|i: int, j: int|
        0 <= i < modules.len() && 0 <= j < modules.len() && i != j ==> !same_path(
            (#[trigger] modules[i]).file,
            (#[trigger] modules[j]).file,
        )
    &&& forall|i: int| 0 <= i < modules.len() ==> named_once((#[trigger] modules[i]).module.deps)
    &&& forall|i: int| 0 <= i < modules.len() ==> (#[trigger] modules[i]).file.len() <= usize::MAX
}

/// The paths of the modules in the order in which they are written.
pub open spec fn paths_in_order(modules: Seq<BundledView>) -> Seq<Seq<char>> {
    Seq::new(modules.len(), |e: int| modules[sorted(files_of(modules))[e]].file)
}

/// The paths of the modules, as they are written, are in strict order, and
/// they are the paths of the modules.
pub proof fn lemma_paths_in_order(modules: Seq<BundledView>)
    requires
        keyed(modules),
    ensures
        sorted(files_of(modules)).len() == modules.len(),
        forall|e: int|
            0 <= e < modules.len() ==> 0 <= #[trigger] sorted(files_of(modules))[e]
                < modules.len(),
        forall|x: int| 0 <= x < modules.len() ==> #[trigger] sorted(files_of(modules)).contains(x),
        forall|i: int, j: int|
            0 <= i < j < modules.len() ==> before(
                #[trigger] paths_in_order(modules)[i],
                #[trigger] paths_in_order(modules)[j],
            ),
{
    let files = files_of(modules);
    let order = sorted(files);
    lemma_sorted_upto(files, files.len());
    assert forall|k: int| 0 <= k < files.len() implies (#[trigger] files[k]).len() <= usize::MAX by {
        assert(files[k] == modules[k].file);
    }
    lemma_sorted_all(order, files);
    assert forall|i: int, j: int| 0 <= i < j < modules.len() implies before(
        #[trigger] paths_in_order(modules)[i],
        #[trigger] paths_in_order(modules)[j],
    ) by {
        let x = order[i];
        let y = order[j];
        assert(0 <= x < modules.len() && 0 <= y < modules.len());
        assert(x != y);
        assert(files[x] == modules[x].file);
        assert(files[y] == modules[y].file);
        assert(!before(files[y], files[x]));
        assert(!same_path(modules[x].file, modules[y].file));
        lemma_before_total(files[x], files[y]);
    }
}

/// Whether the modules that are written at the place `e` are the same.
pub open spec fn matched(
    a: Seq<BundledView>,
    oa: Seq<int>,
    b: Seq<BundledView>,
    ob: Seq<int>,
    e: int,
) -> bool {
    &&& same_module(a[oa[e]], b[ob[e]])
    &&& named_once(a[oa[e]].module.deps)
    &&& named_once(b[ob[e]].module.deps)
}

/// Two lists of the same modules have the same module at every place in
/// the order in which they are written.
pub proof fn lemma_same_places(a: Seq<BundledView>, b: Seq<BundledView>)
    requires
        keyed(a),
        keyed(b),
        same_modules(a, b),
    ensures
        a.len() == b.len(),
        sorted(files_of(a)).len() == a.len(),
        sorted(files_of(b)).len() == b.len(),
        forall|e: int|
            0 <= e < a.len() ==> #[trigger] matched(
                a,
                sorted(files_of(a)),
                b,
                sorted(files_of(b)),
                e,
            ),
{
    let oa = sorted(files_of(a));
    let ob = sorted(files_of(b));
    let xa = paths_in_order(a);
    let xb = paths_in_order(b);
    let lt = |p: Seq<char>, q: Seq<char>| before(p, q);
    lemma_paths_in_order(a);
    lemma_paths_in_order(b);
    assert forall|p: Seq<char>, q: Seq<char>| #[trigger] lt(p, q) implies !lt(q, p) by {
        lemma_before_asymmetric(p, q);
    }
    assert forall|i: int, j: int| 0 <= i < j < xa.len() implies lt(
        #[trigger] xa[i],
        #[trigger] xa[j],
    ) by {
        assert(before(xa[i], xa[j]));
    }
    assert forall|i: int, j: int| 0 <= i < j < xb.len() implies lt(
        #[trigger] xb[i],
        #[trigger] xb[j],
    ) by {
        assert(before(xb[i], xb[j]));
    }
    assert forall|e: int| 0 <= e < xa.len() implies xb.contains(#[trigger] xa[e]) by {
        let m = a[oa[e]];
        assert(has_module(b, m));
        let j = choose|j: int| 0 <= j < b.len() && same_module(m, #[trigger] b[j]);
        assert(ob.contains(j));
        let f = choose|f: int| 0 <= f < ob.len() && ob[f] == j;
        assert(xb[f] == m.file);
    }
    assert forall|e: int| 0 <= e < xb.len() implies xa.contains(#[trigger] xb[e]) by {
        let m = b[ob[e]];
        assert(has_module(a, m));
        let j = choose|j: int| 0 <= j < a.len() && same_module(m, #[trigger] a[j]);
        assert(oa.contains(j));
        let f = choose|f: int| 0 <= f < oa.len() && oa[f] == j;
        assert(xa[f] == m.file);
    }
    lemma_sorted_unique(xa, xb, lt);
    assert(xa.len() == xb.len());
    assert forall|e: int| 0 <= e < a.len() implies #[trigger] matched(a, oa, b, ob, e) by {
        let m = a[oa[e]];
        assert(has_module(b, m));
        let j = choose|j: int| 0 <= j < b.len() && same_module(m, #[trigger] b[j]);
        assert(xa[e] == m.file);
        assert(xb[e] == b[ob[e]].file);
        if j != ob[e] {
            assert(!same_path(b[j].file, b[ob[e]].file));
        }
    }
}

/// What is written of the first `k` modules is the same where the modules
/// at every place are.
pub proof fn lemma_same_output(
    a: Seq<BundledView>,
    oa: Seq<int>,
    b: Seq<BundledView>,
    ob: Seq<int>,
    dir: Seq<char>,
    k: nat,
)
    requires
        forall|e: int| 0 <= e < k ==> #[trigger] matched(a, oa, b, ob, e),
    ensures
        chunks(a, oa, dir, k) == chunks(b, ob, dir, k),
        modules_lines(a, oa, k) == modules_lines(b, ob, k),
        maps_upto(a, oa, k) == maps_upto(b, ob, k),
        sources_upto(a, oa, dir, k) == sources_upto(b, ob, dir, k),
        contents_upto(a, oa, k) == contents_upto(b, ob, k),
    decreases k,
{
    if k > 0 {
        lemma_same_output(a, oa, b, ob, dir, (k - 1) as nat);
        assert(matched(a, oa, b, ob, k - 1));
        let x = a[oa[k - 1]];
        let y = b[ob[k - 1]];
        lemma_by_name_same(x.module.deps, y.module.deps);
        assert(chunk(x, dir) == chunk(y, dir));
        if k > 1 {
            assert(matched(a, oa, b, ob, k - 2));
        }
    }
}

/// The bundle and its source map do not depend on the order in which the
/// modules and the dependencies of each are held: two writers that hold
/// the same modules, each path once and each name once in a module, and
/// that agree on all else, write the same bundle and the same source map.
pub proof fn lemma_order_independent(a: Writer, b: Writer)
    requires
        a.head@ == b.head@,
        a.tail@ == b.tail@,
        a.entry_point@ == b.entry_point@,
        a.map_output@ == b.map_output@,
        keyed(a.items()),
        keyed(b.items()),
        same_modules(a.items(), b.items()),
    ensures
        a.bundle() == b.bundle(),
        a.line_count() == b.line_count(),
        a.mappings() == b.mappings(),
        a.map() == b.map(),
        a.map_comment() == b.map_comment(),
{
    lemma_same_places(a.items(), b.items());
    lemma_same_output(
        a.items(),
        a.order(),
        b.items(),
        b.order(),
        a.dir(),
        a.items().len(),
    );
}

} // verus!
