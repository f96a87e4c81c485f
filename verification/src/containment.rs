//! Self-containment of a comparison result.
//!
//! A one-sided difference whose entry is a directory stands for its
//! whole subtree: the comparison never descends into it, so no other
//! difference of the same result can name a path inside it.  This module
//! proves that.

use vstd::prelude::*;
use crate::compare::{
    both_diff, child_differs, source_only_diff, spec_diffs, spec_source_from, spec_target_from,
    target_only_diff,
};
use crate::differences::DiffModel;
use crate::paths::{
    lemma_child_strict, lemma_prefix_comparable, lemma_prefix_trans, lemma_siblings_unrelated,
    path_prefix, paths_unrelated, strict_descendant,
};
use crate::tree::{child_path, lemma_lookup_props, lookup_child, tree_wf, TreeModel};

verus! {

/// The one path of a one-sided difference.
pub open spec fn one_sided_path(d: DiffModel) -> Seq<char>
    recommends
        d.valid(),
{
    if d.source is Some {
        d.source->0.path
    } else {
        d.target->0.path
    }
}

/// A difference present on one side only whose entry is a directory: it
/// stands for the entire subtree rooted there.
pub open spec fn one_sided_dir(d: DiffModel) -> bool {
    ||| (d.is_source_only() && d.source->0.is_dir())
    ||| (d.is_target_only() && d.target->0.is_dir())
}

/// Whether a difference names a path strictly inside the directory `p`.
pub open spec fn mentions_under(d: DiffModel, p: Seq<char>) -> bool {
    ||| (d.source is Some && strict_descendant(d.source->0.path, p))
    ||| (d.target is Some && strict_descendant(d.target->0.path, p))
}

/// Under roots that do not contain one another, no path under the one
/// root is an ancestor of a path under the other.
proof fn lemma_cross_no_prefix(sp: Seq<char>, tp: Seq<char>, p: Seq<char>, x: Seq<char>)
    requires
        paths_unrelated(sp, tp),
        path_prefix(sp, p),
        path_prefix(tp, x),
    ensures
        !path_prefix(p, x),
{
    if path_prefix(p, x) {
        lemma_prefix_trans(sp, p, x);
        lemma_prefix_comparable(sp, tp, x);
    }
}

/// A path under one child is never an ancestor of a path under a
/// differently named sibling.
proof fn lemma_anchored_no_prefix(
    parent: Seq<char>,
    n1: Seq<char>,
    n2: Seq<char>,
    p: Seq<char>,
    x: Seq<char>,
)
    requires
        crate::tree::valid_name(n1),
        crate::tree::valid_name(n2),
        n1 != n2,
        path_prefix(child_path(parent, n1), p),
        path_prefix(child_path(parent, n2), x),
    ensures
        !path_prefix(p, x),
{
    let a1 = child_path(parent, n1);
    let a2 = child_path(parent, n2);
    if path_prefix(p, x) {
        lemma_prefix_trans(a1, p, x);
        lemma_prefix_comparable(a1, a2, x);
        lemma_siblings_unrelated(parent, n1, n2);
        lemma_siblings_unrelated(parent, n2, n1);
    }
}

/// Children of unrelated roots are unrelated, whatever their names.
proof fn lemma_cross_children_unrelated(
    sp: Seq<char>,
    tp: Seq<char>,
    n1: Seq<char>,
    n2: Seq<char>,
)
    requires
        paths_unrelated(sp, tp),
    ensures
        paths_unrelated(child_path(sp, n1), child_path(tp, n2)),
{
    let c1 = child_path(sp, n1);
    let c2 = child_path(tp, n2);
    lemma_child_strict(sp, n1);
    lemma_child_strict(tp, n2);
    lemma_cross_no_prefix(sp, tp, c1, c2);
    lemma_cross_no_prefix(tp, sp, c2, c1);
}

/// Where an element of the target-only segment comes from: some target
/// child, from position `k` on, whose name the source does not carry.
proof fn lemma_target_from_elem(s: TreeModel, t: TreeModel, k: int, j: int)
    requires
        0 <= k,
        0 <= j < spec_target_from(s.children, t.children, k).len(),
    ensures
        exists|ci: int|
            k <= ci < t.children.len() && spec_target_from(s.children, t.children, k)[j]
                == target_only_diff(#[trigger] t.children[ci]) && lookup_child(
                s.children,
                t.children[ci].entry.name,
            ) is None,
    decreases t.children.len() - k,
{
    let seg = spec_target_from(s.children, t.children, k);
    let head: Seq<DiffModel> = if lookup_child(s.children, t.children[k].entry.name) is None {
        seq![target_only_diff(t.children[k])]
    } else {
        Seq::<DiffModel>::empty()
    };
    if j < head.len() {
        assert(seg[j] == target_only_diff(t.children[k]) && lookup_child(
            s.children,
            t.children[k].entry.name,
        ) is None);
    } else {
        lemma_target_from_elem(s, t, k + 1, j - head.len());
        let ci = choose|ci: int|
            k + 1 <= ci < t.children.len() && spec_target_from(s.children, t.children, k + 1)[j
                - head.len()] == target_only_diff(#[trigger] t.children[ci]) && lookup_child(
                s.children,
                t.children[ci].entry.name,
            ) is None;
        assert(seg[j] == spec_target_from(s.children, t.children, k + 1)[j - head.len()]);
        assert(seg[j] == target_only_diff(t.children[ci]) && lookup_child(
            s.children,
            t.children[ci].entry.name,
        ) is None);
    }
}

/// Where an element of the source-driven segment comes from: a source
/// child absent from the target, a differing pair, or an element of the
/// recursive comparison of a matched directory pair.
proof fn lemma_source_from_elem(s: TreeModel, t: TreeModel, k: int, j: int)
    requires
        0 <= k,
        0 <= j < spec_source_from(s.children, t.children, k).len(),
    ensures
        ({
            let d = spec_source_from(s.children, t.children, k)[j];
            ||| exists|ci: int|
                k <= ci < s.children.len() && d == source_only_diff(#[trigger] s.children[ci])
                    && lookup_child(t.children, s.children[ci].entry.name) is None
            ||| exists|ci: int|
                k <= ci < s.children.len() && {
                    let sc = #[trigger] s.children[ci];
                    let lk = lookup_child(t.children, sc.entry.name);
                    &&& lk is Some
                    &&& !(sc.is_dir() && lk->0.is_dir())
                    &&& child_differs(sc, lk->0)
                    &&& d == both_diff(sc, lk->0)
                }
            ||| exists|ci: int|
                k <= ci < s.children.len() && {
                    let sc = #[trigger] s.children[ci];
                    let lk = lookup_child(t.children, sc.entry.name);
                    &&& lk is Some
                    &&& sc.is_dir()
                    &&& lk->0.is_dir()
                    &&& exists|jj: int|
                        0 <= jj < spec_diffs(sc, lk->0).len() && d == #[trigger] spec_diffs(
                            sc,
                            lk->0,
                        )[jj]
                }
        }),
    decreases s.children.len() - k,
{
    let seg = spec_source_from(s.children, t.children, k);
    let sc = s.children[k];
    let head: Seq<DiffModel> = match lookup_child(t.children, sc.entry.name) {
        Option::Some(tc) => {
            if sc.is_dir() && tc.is_dir() {
                spec_diffs(sc, tc)
            } else if child_differs(sc, tc) {
                seq![both_diff(sc, tc)]
            } else {
                Seq::<DiffModel>::empty()
            }
        },
        Option::None => seq![source_only_diff(sc)],
    };
    if j < head.len() {
        let d = seg[j];
        assert(d == head[j]);
        match lookup_child(t.children, sc.entry.name) {
            Option::Some(tc) => {
                if sc.is_dir() && tc.is_dir() {
                    assert(0 <= j < spec_diffs(sc, tc).len() && d == spec_diffs(sc, tc)[j]);
                    assert(exists|jj: int|
                        0 <= jj < spec_diffs(sc, tc).len() && d == #[trigger] spec_diffs(
                            sc,
                            tc,
                        )[jj]);
                } else {
                    assert(d == both_diff(sc, tc) && child_differs(sc, tc));
                }
            },
            Option::None => {
                assert(d == source_only_diff(sc));
            },
        }
        assert(s.children[k] == sc);
    } else {
        lemma_source_from_elem(s, t, k + 1, j - head.len());
        assert(seg[j] == spec_source_from(s.children, t.children, k + 1)[j - head.len()]);
    }
}

/// Where any element of a comparison result comes from: one of the two
/// one-sided shapes, a differing pair, or the recursive comparison of a
/// matched directory pair.
proof fn lemma_diffs_elem(s: TreeModel, t: TreeModel, j: int)
    requires
        0 <= j < spec_diffs(s, t).len(),
    ensures
        ({
            let d = spec_diffs(s, t)[j];
            ||| exists|ci: int|
                0 <= ci < t.children.len() && d == target_only_diff(#[trigger] t.children[ci])
                    && lookup_child(s.children, t.children[ci].entry.name) is None
            ||| exists|ci: int|
                0 <= ci < s.children.len() && d == source_only_diff(#[trigger] s.children[ci])
                    && lookup_child(t.children, s.children[ci].entry.name) is None
            ||| exists|ci: int|
                0 <= ci < s.children.len() && {
                    let sc = #[trigger] s.children[ci];
                    let lk = lookup_child(t.children, sc.entry.name);
                    &&& lk is Some
                    &&& !(sc.is_dir() && lk->0.is_dir())
                    &&& child_differs(sc, lk->0)
                    &&& d == both_diff(sc, lk->0)
                }
            ||| exists|ci: int|
                0 <= ci < s.children.len() && {
                    let sc = #[trigger] s.children[ci];
                    let lk = lookup_child(t.children, sc.entry.name);
                    &&& lk is Some
                    &&& sc.is_dir()
                    &&& lk->0.is_dir()
                    &&& exists|jj: int|
                        0 <= jj < spec_diffs(sc, lk->0).len() && d == #[trigger] spec_diffs(
                            sc,
                            lk->0,
                        )[jj]
                }
        }),
{
    let ds = spec_diffs(s, t);
    let tseg = spec_target_from(s.children, t.children, 0);
    if j < tseg.len() {
        assert(ds[j] == tseg[j]);
        lemma_target_from_elem(s, t, 0, j);
    } else {
        assert(ds[j] == spec_source_from(s.children, t.children, 0)[j - tseg.len()]);
        lemma_source_from_elem(s, t, 0, j - tseg.len());
    }
}

/// What a successful lookup in a well-formed tree yields: a child of
/// that tree, carrying the name, its path formed from the parent's.
proof fn lemma_lookup_child_facts(t: TreeModel, name: Seq<char>)
    requires
        tree_wf(t),
        lookup_child(t.children, name) is Some,
    ensures
        lookup_child(t.children, name)->0.entry.name == name,
        lookup_child(t.children, name)->0.entry.path == child_path(t.entry.path, name),
        tree_wf(lookup_child(t.children, name)->0),
        crate::tree::valid_name(name),
{
    lemma_lookup_props(t.children, name);
    let tc = lookup_child(t.children, name)->0;
    let ct = choose|ct: int|
        0 <= ct < t.children.len() && #[trigger] t.children[ct] == tc && tc.entry.name == name;
}

/// Every path a difference names lies strictly inside the corresponding
/// root: source-side paths under the source root, target-side paths
/// under the target root.
proof fn lemma_diff_paths_inside(s: TreeModel, t: TreeModel, j: int)
    requires
        tree_wf(s),
        tree_wf(t),
        0 <= j < spec_diffs(s, t).len(),
    ensures
        spec_diffs(s, t)[j].source is Some ==> strict_descendant(
            spec_diffs(s, t)[j].source->0.path,
            s.entry.path,
        ),
        spec_diffs(s, t)[j].target is Some ==> strict_descendant(
            spec_diffs(s, t)[j].target->0.path,
            t.entry.path,
        ),
    decreases s,
{
    let ds = spec_diffs(s, t);
    let tseg = spec_target_from(s.children, t.children, 0);
    let sseg = spec_source_from(s.children, t.children, 0);
    if j < tseg.len() {
        assert(ds[j] == tseg[j]);
        lemma_target_from_elem(s, t, 0, j);
        let ci = choose|ci: int|
            0 <= ci < t.children.len() && tseg[j] == target_only_diff(#[trigger] t.children[ci])
                && lookup_child(s.children, t.children[ci].entry.name) is None;
        lemma_child_strict(t.entry.path, t.children[ci].entry.name);
    } else {
        assert(ds[j] == sseg[j - tseg.len()]);
        let js = j - tseg.len();
        lemma_source_from_elem(s, t, 0, js);
        let d = sseg[js];
        if exists|ci: int|
            0 <= ci < s.children.len() && d == source_only_diff(#[trigger] s.children[ci])
                && lookup_child(t.children, s.children[ci].entry.name) is None {
            let ci = choose|ci: int|
                0 <= ci < s.children.len() && d == source_only_diff(#[trigger] s.children[ci])
                    && lookup_child(t.children, s.children[ci].entry.name) is None;
            lemma_child_strict(s.entry.path, s.children[ci].entry.name);
        } else if exists|ci: int|
            0 <= ci < s.children.len() && {
                let sc = #[trigger] s.children[ci];
                let lk = lookup_child(t.children, sc.entry.name);
                &&& lk is Some
                &&& !(sc.is_dir() && lk->0.is_dir())
                &&& child_differs(sc, lk->0)
                &&& d == both_diff(sc, lk->0)
            } {
            let ci = choose|ci: int|
                0 <= ci < s.children.len() && {
                    let sc = #[trigger] s.children[ci];
                    let lk = lookup_child(t.children, sc.entry.name);
                    &&& lk is Some
                    &&& !(sc.is_dir() && lk->0.is_dir())
                    &&& child_differs(sc, lk->0)
                    &&& d == both_diff(sc, lk->0)
                };
            let sc = s.children[ci];
            let tc = lookup_child(t.children, sc.entry.name)->0;
            lemma_child_strict(s.entry.path, sc.entry.name);
            lemma_lookup_props(t.children, sc.entry.name);
            let ct = choose|ct: int|
                0 <= ct < t.children.len() && #[trigger] t.children[ct] == tc && tc.entry.name
                    == sc.entry.name;
            lemma_child_strict(t.entry.path, tc.entry.name);
        } else {
            let ci = choose|ci: int|
                0 <= ci < s.children.len() && {
                    let sc = #[trigger] s.children[ci];
                    let lk = lookup_child(t.children, sc.entry.name);
                    &&& lk is Some
                    &&& sc.is_dir()
                    &&& lk->0.is_dir()
                    &&& exists|jj: int|
                        0 <= jj < spec_diffs(sc, lk->0).len() && d == #[trigger] spec_diffs(
                            sc,
                            lk->0,
                        )[jj]
                };
            let sc = s.children[ci];
            let tc = lookup_child(t.children, sc.entry.name)->0;
            let jj = choose|jj: int|
                0 <= jj < spec_diffs(sc, tc).len() && d == #[trigger] spec_diffs(sc, tc)[jj];
            lemma_lookup_props(t.children, sc.entry.name);
            let ct = choose|ct: int|
                0 <= ct < t.children.len() && #[trigger] t.children[ct] == tc && tc.entry.name
                    == sc.entry.name;
            assert(decreases_to!(s => sc));
            lemma_diff_paths_inside(sc, tc, jj);
            lemma_child_strict(s.entry.path, sc.entry.name);
            lemma_child_strict(t.entry.path, tc.entry.name);
            if d.source is Some {
                lemma_prefix_trans(s.entry.path, sc.entry.path, d.source->0.path);
            }
            if d.target is Some {
                lemma_prefix_trans(t.entry.path, tc.entry.path, d.target->0.path);
            }
        }
    }
}


/// No difference of the comparison names a path inside a target-only
/// child: the comparison never descends into it.
proof fn lemma_contained_target_only(s: TreeModel, t: TreeModel, ci: int)
    requires
        tree_wf(s),
        tree_wf(t),
        paths_unrelated(s.entry.path, t.entry.path),
        0 <= ci < t.children.len(),
        lookup_child(s.children, t.children[ci].entry.name) is None,
    ensures
        forall|j: int|
            0 <= j < spec_diffs(s, t).len() ==> !mentions_under(
                #[trigger] spec_diffs(s, t)[j],
                t.children[ci].entry.path,
            ),
{
    let ds = spec_diffs(s, t);
    let sp = s.entry.path;
    let tp = t.entry.path;
    let n = t.children[ci].entry.name;
    let p = t.children[ci].entry.path;
    assert(p == child_path(tp, n));
    lemma_lookup_props(s.children, n);
    lemma_child_strict(tp, n);
    assert forall|j: int| 0 <= j < ds.len() implies !mentions_under(#[trigger] ds[j], p) by {
        lemma_diffs_elem(s, t, j);
        let d = ds[j];
        if exists|cj: int|
            0 <= cj < t.children.len() && d == target_only_diff(#[trigger] t.children[cj])
                && lookup_child(s.children, t.children[cj].entry.name) is None {
            let cj = choose|cj: int|
                0 <= cj < t.children.len() && d == target_only_diff(#[trigger] t.children[cj])
                    && lookup_child(s.children, t.children[cj].entry.name) is None;
            let n2 = t.children[cj].entry.name;
            let x = t.children[cj].entry.path;
            assert(x == child_path(tp, n2));
            if n2 == n {
                if cj < ci {
                    assert(t.children[cj].entry.name != t.children[ci].entry.name);
                } else if ci < cj {
                    assert(t.children[ci].entry.name != t.children[cj].entry.name);
                }
                assert(x == p);
            } else {
                lemma_anchored_no_prefix(tp, n, n2, p, x);
            }
        } else if exists|cj: int|
            0 <= cj < s.children.len() && d == source_only_diff(#[trigger] s.children[cj])
                && lookup_child(t.children, s.children[cj].entry.name) is None {
            let cj = choose|cj: int|
                0 <= cj < s.children.len() && d == source_only_diff(#[trigger] s.children[cj])
                    && lookup_child(t.children, s.children[cj].entry.name) is None;
            let x = s.children[cj].entry.path;
            assert(x == child_path(sp, s.children[cj].entry.name));
            lemma_child_strict(sp, s.children[cj].entry.name);
            lemma_cross_no_prefix(tp, sp, p, x);
        } else if exists|cj: int|
            0 <= cj < s.children.len() && {
                let sc = #[trigger] s.children[cj];
                let lk = lookup_child(t.children, sc.entry.name);
                &&& lk is Some
                &&& !(sc.is_dir() && lk->0.is_dir())
                &&& child_differs(sc, lk->0)
                &&& d == both_diff(sc, lk->0)
            } {
            let cj = choose|cj: int|
                0 <= cj < s.children.len() && {
                    let sc = #[trigger] s.children[cj];
                    let lk = lookup_child(t.children, sc.entry.name);
                    &&& lk is Some
                    &&& !(sc.is_dir() && lk->0.is_dir())
                    &&& child_differs(sc, lk->0)
                    &&& d == both_diff(sc, lk->0)
                };
            let sc = s.children[cj];
            let m = sc.entry.name;
            let tc = lookup_child(t.children, m)->0;
            let x1 = sc.entry.path;
            let x2 = tc.entry.path;
            assert(x1 == child_path(sp, m));
            lemma_child_strict(sp, m);
            lemma_cross_no_prefix(tp, sp, p, x1);
            lemma_lookup_child_facts(t, m);
            assert(x2 == child_path(tp, m));
            assert(m != n);
            lemma_anchored_no_prefix(tp, n, m, p, x2);
        } else {
            let cj = choose|cj: int|
                0 <= cj < s.children.len() && {
                    let sc = #[trigger] s.children[cj];
                    let lk = lookup_child(t.children, sc.entry.name);
                    &&& lk is Some
                    &&& sc.is_dir()
                    &&& lk->0.is_dir()
                    &&& exists|jj: int|
                        0 <= jj < spec_diffs(sc, lk->0).len() && d == #[trigger] spec_diffs(
                            sc,
                            lk->0,
                        )[jj]
                };
            let sc = s.children[cj];
            let m = sc.entry.name;
            let tc = lookup_child(t.children, m)->0;
            let jj = choose|jj: int|
                0 <= jj < spec_diffs(sc, tc).len() && d == #[trigger] spec_diffs(sc, tc)[jj];
            lemma_lookup_child_facts(t, m);
            lemma_diff_paths_inside(sc, tc, jj);
            assert(sc.entry.path == child_path(sp, m));
            assert(tc.entry.path == child_path(tp, m));
            lemma_child_strict(sp, m);
            assert(m != n);
            if d.source is Some {
                let x = d.source->0.path;
                lemma_prefix_trans(sp, sc.entry.path, x);
                lemma_cross_no_prefix(tp, sp, p, x);
            }
            if d.target is Some {
                let x = d.target->0.path;
                lemma_anchored_no_prefix(tp, n, m, p, x);
            }
        }
    }
}

/// No difference of the comparison names a path inside a source-only
/// child: the comparison never descends into it.
proof fn lemma_contained_source_only(s: TreeModel, t: TreeModel, ci: int)
    requires
        tree_wf(s),
        tree_wf(t),
        paths_unrelated(s.entry.path, t.entry.path),
        0 <= ci < s.children.len(),
        lookup_child(t.children, s.children[ci].entry.name) is None,
    ensures
        forall|j: int|
            0 <= j < spec_diffs(s, t).len() ==> !mentions_under(
                #[trigger] spec_diffs(s, t)[j],
                s.children[ci].entry.path,
            ),
{
    let ds = spec_diffs(s, t);
    let sp = s.entry.path;
    let tp = t.entry.path;
    let n = s.children[ci].entry.name;
    let p = s.children[ci].entry.path;
    assert(p == child_path(sp, n));
    lemma_lookup_props(t.children, n);
    lemma_child_strict(sp, n);
    assert forall|j: int| 0 <= j < ds.len() implies !mentions_under(#[trigger] ds[j], p) by {
        lemma_diffs_elem(s, t, j);
        let d = ds[j];
        if exists|cj: int|
            0 <= cj < t.children.len() && d == target_only_diff(#[trigger] t.children[cj])
                && lookup_child(s.children, t.children[cj].entry.name) is None {
            let cj = choose|cj: int|
                0 <= cj < t.children.len() && d == target_only_diff(#[trigger] t.children[cj])
                    && lookup_child(s.children, t.children[cj].entry.name) is None;
            let x = t.children[cj].entry.path;
            assert(x == child_path(tp, t.children[cj].entry.name));
            lemma_child_strict(tp, t.children[cj].entry.name);
            lemma_cross_no_prefix(sp, tp, p, x);
        } else if exists|cj: int|
            0 <= cj < s.children.len() && d == source_only_diff(#[trigger] s.children[cj])
                && lookup_child(t.children, s.children[cj].entry.name) is None {
            let cj = choose|cj: int|
                0 <= cj < s.children.len() && d == source_only_diff(#[trigger] s.children[cj])
                    && lookup_child(t.children, s.children[cj].entry.name) is None;
            let n2 = s.children[cj].entry.name;
            let x = s.children[cj].entry.path;
            assert(x == child_path(sp, n2));
            if n2 == n {
                if cj < ci {
                    assert(s.children[cj].entry.name != s.children[ci].entry.name);
                } else if ci < cj {
                    assert(s.children[ci].entry.name != s.children[cj].entry.name);
                }
                assert(x == p);
            } else {
                lemma_anchored_no_prefix(sp, n, n2, p, x);
            }
        } else if exists|cj: int|
            0 <= cj < s.children.len() && {
                let sc = #[trigger] s.children[cj];
                let lk = lookup_child(t.children, sc.entry.name);
                &&& lk is Some
                &&& !(sc.is_dir() && lk->0.is_dir())
                &&& child_differs(sc, lk->0)
                &&& d == both_diff(sc, lk->0)
            } {
            let cj = choose|cj: int|
                0 <= cj < s.children.len() && {
                    let sc = #[trigger] s.children[cj];
                    let lk = lookup_child(t.children, sc.entry.name);
                    &&& lk is Some
                    &&& !(sc.is_dir() && lk->0.is_dir())
                    &&& child_differs(sc, lk->0)
                    &&& d == both_diff(sc, lk->0)
                };
            let sc = s.children[cj];
            let m = sc.entry.name;
            let tc = lookup_child(t.children, m)->0;
            let x1 = sc.entry.path;
            let x2 = tc.entry.path;
            assert(x1 == child_path(sp, m));
            assert(m != n);
            lemma_anchored_no_prefix(sp, n, m, p, x1);
            lemma_lookup_child_facts(t, m);
            assert(x2 == child_path(tp, m));
            lemma_child_strict(tp, m);
            lemma_cross_no_prefix(sp, tp, p, x2);
        } else {
            let cj = choose|cj: int|
                0 <= cj < s.children.len() && {
                    let sc = #[trigger] s.children[cj];
                    let lk = lookup_child(t.children, sc.entry.name);
                    &&& lk is Some
                    &&& sc.is_dir()
                    &&& lk->0.is_dir()
                    &&& exists|jj: int|
                        0 <= jj < spec_diffs(sc, lk->0).len() && d == #[trigger] spec_diffs(
                            sc,
                            lk->0,
                        )[jj]
                };
            let sc = s.children[cj];
            let m = sc.entry.name;
            let tc = lookup_child(t.children, m)->0;
            let jj = choose|jj: int|
                0 <= jj < spec_diffs(sc, tc).len() && d == #[trigger] spec_diffs(sc, tc)[jj];
            lemma_lookup_child_facts(t, m);
            lemma_diff_paths_inside(sc, tc, jj);
            assert(sc.entry.path == child_path(sp, m));
            assert(tc.entry.path == child_path(tp, m));
            lemma_child_strict(tp, m);
            assert(m != n);
            if d.source is Some {
                let x = d.source->0.path;
                lemma_anchored_no_prefix(sp, n, m, p, x);
            }
            if d.target is Some {
                let x = d.target->0.path;
                lemma_prefix_trans(tp, tc.entry.path, x);
                lemma_cross_no_prefix(sp, tp, p, x);
            }
        }
    }
}

/// No difference outside a matched directory pair names a path inside a
/// directory `p` that lies within that pair's own subtrees; inside the
/// pair the same is given.
proof fn lemma_contained_nested(s: TreeModel, t: TreeModel, ci: int, p: Seq<char>)
    requires
        tree_wf(s),
        tree_wf(t),
        paths_unrelated(s.entry.path, t.entry.path),
        0 <= ci < s.children.len(),
        s.children[ci].is_dir(),
        lookup_child(t.children, s.children[ci].entry.name) is Some,
        lookup_child(t.children, s.children[ci].entry.name)->0.is_dir(),
        path_prefix(s.children[ci].entry.path, p) || path_prefix(
            lookup_child(t.children, s.children[ci].entry.name)->0.entry.path,
            p,
        ),
        forall|jj: int|
            0 <= jj < spec_diffs(
                s.children[ci],
                lookup_child(t.children, s.children[ci].entry.name)->0,
            ).len() ==> !mentions_under(
                #[trigger] spec_diffs(
                    s.children[ci],
                    lookup_child(t.children, s.children[ci].entry.name)->0,
                )[jj],
                p,
            ),
    ensures
        forall|j: int|
            0 <= j < spec_diffs(s, t).len() ==> !mentions_under(#[trigger] spec_diffs(s, t)[j], p),
{
    let ds = spec_diffs(s, t);
    let sp = s.entry.path;
    let tp = t.entry.path;
    let m = s.children[ci].entry.name;
    let sci = s.children[ci];
    let tci = lookup_child(t.children, m)->0;
    lemma_lookup_child_facts(t, m);
    assert(sci.entry.path == child_path(sp, m));
    assert(tci.entry.path == child_path(tp, m));
    lemma_child_strict(sp, m);
    lemma_child_strict(tp, m);
    let p_src = path_prefix(sci.entry.path, p);
    if p_src {
        lemma_prefix_trans(sp, sci.entry.path, p);
    } else {
        lemma_prefix_trans(tp, tci.entry.path, p);
    }
    assert forall|j: int| 0 <= j < ds.len() implies !mentions_under(#[trigger] ds[j], p) by {
        lemma_diffs_elem(s, t, j);
        let d = ds[j];
        if exists|cj: int|
            0 <= cj < t.children.len() && d == target_only_diff(#[trigger] t.children[cj])
                && lookup_child(s.children, t.children[cj].entry.name) is None {
            let cj = choose|cj: int|
                0 <= cj < t.children.len() && d == target_only_diff(#[trigger] t.children[cj])
                    && lookup_child(s.children, t.children[cj].entry.name) is None;
            let n2 = t.children[cj].entry.name;
            let x = t.children[cj].entry.path;
            assert(x == child_path(tp, n2));
            lemma_lookup_props(s.children, n2);
            assert(m != n2);
            if p_src {
                lemma_child_strict(tp, n2);
                lemma_cross_no_prefix(sp, tp, p, x);
            } else {
                lemma_anchored_no_prefix(tp, m, n2, p, x);
            }
        } else if exists|cj: int|
            0 <= cj < s.children.len() && d == source_only_diff(#[trigger] s.children[cj])
                && lookup_child(t.children, s.children[cj].entry.name) is None {
            let cj = choose|cj: int|
                0 <= cj < s.children.len() && d == source_only_diff(#[trigger] s.children[cj])
                    && lookup_child(t.children, s.children[cj].entry.name) is None;
            let n2 = s.children[cj].entry.name;
            let x = s.children[cj].entry.path;
            assert(x == child_path(sp, n2));
            assert(m != n2);
            if p_src {
                lemma_anchored_no_prefix(sp, m, n2, p, x);
            } else {
                lemma_child_strict(sp, n2);
                lemma_cross_no_prefix(tp, sp, p, x);
            }
        } else if exists|cj: int|
            0 <= cj < s.children.len() && {
                let sc = #[trigger] s.children[cj];
                let lk = lookup_child(t.children, sc.entry.name);
                &&& lk is Some
                &&& !(sc.is_dir() && lk->0.is_dir())
                &&& child_differs(sc, lk->0)
                &&& d == both_diff(sc, lk->0)
            } {
            let cj = choose|cj: int|
                0 <= cj < s.children.len() && {
                    let sc = #[trigger] s.children[cj];
                    let lk = lookup_child(t.children, sc.entry.name);
                    &&& lk is Some
                    &&& !(sc.is_dir() && lk->0.is_dir())
                    &&& child_differs(sc, lk->0)
                    &&& d == both_diff(sc, lk->0)
                };
            let sc = s.children[cj];
            let n2 = sc.entry.name;
            let tc = lookup_child(t.children, n2)->0;
            if n2 == m {
                if cj < ci {
                    assert(s.children[cj].entry.name != s.children[ci].entry.name);
                } else if ci < cj {
                    assert(s.children[ci].entry.name != s.children[cj].entry.name);
                }
                assert(false);
            }
            let x1 = sc.entry.path;
            let x2 = tc.entry.path;
            assert(x1 == child_path(sp, n2));
            lemma_lookup_child_facts(t, n2);
            assert(x2 == child_path(tp, n2));
            if p_src {
                lemma_anchored_no_prefix(sp, m, n2, p, x1);
                lemma_child_strict(tp, n2);
                lemma_cross_no_prefix(sp, tp, p, x2);
            } else {
                lemma_child_strict(sp, n2);
                lemma_cross_no_prefix(tp, sp, p, x1);
                lemma_anchored_no_prefix(tp, m, n2, p, x2);
            }
        } else {
            let cj = choose|cj: int|
                0 <= cj < s.children.len() && {
                    let sc = #[trigger] s.children[cj];
                    let lk = lookup_child(t.children, sc.entry.name);
                    &&& lk is Some
                    &&& sc.is_dir()
                    &&& lk->0.is_dir()
                    &&& exists|jj: int|
                        0 <= jj < spec_diffs(sc, lk->0).len() && d == #[trigger] spec_diffs(
                            sc,
                            lk->0,
                        )[jj]
                };
            let sc = s.children[cj];
            let n2 = sc.entry.name;
            let tc = lookup_child(t.children, n2)->0;
            let jj2 = choose|jj: int|
                0 <= jj < spec_diffs(sc, tc).len() && d == #[trigger] spec_diffs(sc, tc)[jj];
            if cj == ci {
                assert(sc == sci && tc == tci);
                assert(!mentions_under(spec_diffs(sci, tci)[jj2], p));
            } else {
                if cj < ci {
                    assert(s.children[cj].entry.name != s.children[ci].entry.name);
                } else {
                    assert(s.children[ci].entry.name != s.children[cj].entry.name);
                }
                assert(n2 != m);
                lemma_lookup_child_facts(t, n2);
                lemma_diff_paths_inside(sc, tc, jj2);
                assert(sc.entry.path == child_path(sp, n2));
                assert(tc.entry.path == child_path(tp, n2));
                if d.source is Some {
                    let x = d.source->0.path;
                    if p_src {
                        lemma_anchored_no_prefix(sp, m, n2, p, x);
                    } else {
                        lemma_child_strict(sp, n2);
                        lemma_prefix_trans(sp, sc.entry.path, x);
                        lemma_cross_no_prefix(tp, sp, p, x);
                    }
                }
                if d.target is Some {
                    let x = d.target->0.path;
                    if p_src {
                        lemma_child_strict(tp, n2);
                        lemma_prefix_trans(tp, tc.entry.path, x);
                        lemma_cross_no_prefix(sp, tp, p, x);
                    } else {
                        lemma_anchored_no_prefix(tp, m, n2, p, x);
                    }
                }
            }
        }
    }
}

/// Self-containment: a one-sided difference whose entry is a directory
/// represents its entire subtree, and no other difference of the same
/// comparison names a path inside that directory.
pub proof fn lemma_differences_self_contained(s: TreeModel, t: TreeModel, i: int)
    requires
        tree_wf(s),
        tree_wf(t),
        paths_unrelated(s.entry.path, t.entry.path),
        0 <= i < spec_diffs(s, t).len(),
        one_sided_dir(spec_diffs(s, t)[i]),
    ensures
        forall|j: int|
            0 <= j < spec_diffs(s, t).len() ==> !mentions_under(
                #[trigger] spec_diffs(s, t)[j],
                one_sided_path(spec_diffs(s, t)[i]),
            ),
    decreases s,
{
    let ds = spec_diffs(s, t);
    let d = ds[i];
    let p = one_sided_path(d);
    lemma_diffs_elem(s, t, i);
    if exists|ci: int|
        0 <= ci < t.children.len() && d == target_only_diff(#[trigger] t.children[ci])
            && lookup_child(s.children, t.children[ci].entry.name) is None {
        let ci = choose|ci: int|
            0 <= ci < t.children.len() && d == target_only_diff(#[trigger] t.children[ci])
                && lookup_child(s.children, t.children[ci].entry.name) is None;
        assert(p == t.children[ci].entry.path);
        lemma_contained_target_only(s, t, ci);
    } else if exists|ci: int|
        0 <= ci < s.children.len() && d == source_only_diff(#[trigger] s.children[ci])
            && lookup_child(t.children, s.children[ci].entry.name) is None {
        let ci = choose|ci: int|
            0 <= ci < s.children.len() && d == source_only_diff(#[trigger] s.children[ci])
                && lookup_child(t.children, s.children[ci].entry.name) is None;
        assert(p == s.children[ci].entry.path);
        lemma_contained_source_only(s, t, ci);
    } else if exists|ci: int|
        0 <= ci < s.children.len() && {
            let sc = #[trigger] s.children[ci];
            let lk = lookup_child(t.children, sc.entry.name);
            &&& lk is Some
            &&& !(sc.is_dir() && lk->0.is_dir())
            &&& child_differs(sc, lk->0)
            &&& d == both_diff(sc, lk->0)
        } {
        assert(false);
    } else {
        let ci = choose|ci: int|
            0 <= ci < s.children.len() && {
                let sc = #[trigger] s.children[ci];
                let lk = lookup_child(t.children, sc.entry.name);
                &&& lk is Some
                &&& sc.is_dir()
                &&& lk->0.is_dir()
                &&& exists|jj: int|
                    0 <= jj < spec_diffs(sc, lk->0).len() && d == #[trigger] spec_diffs(
                        sc,
                        lk->0,
                    )[jj]
            };
        let sc = s.children[ci];
        let m = sc.entry.name;
        let tc = lookup_child(t.children, m)->0;
        let jj = choose|jj: int|
            0 <= jj < spec_diffs(sc, tc).len() && d == #[trigger] spec_diffs(sc, tc)[jj];
        lemma_lookup_child_facts(t, m);
        assert(sc.entry.path == child_path(s.entry.path, m));
        assert(tc.entry.path == child_path(t.entry.path, m));
        lemma_diff_paths_inside(sc, tc, jj);
        lemma_cross_children_unrelated(s.entry.path, t.entry.path, m, m);
        assert(decreases_to!(s => sc));
        lemma_differences_self_contained(sc, tc, jj);
        lemma_contained_nested(s, t, ci, p);
    }
}

} // verus!
