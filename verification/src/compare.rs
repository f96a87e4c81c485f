//! The tree differ: recursive comparison of two snapshots into a minimal,
//! self-contained sequence of differences.
//!
//! Per directory level: every target child whose name is absent from the
//! source yields a target-only difference; every source child is then
//! looked up in the target — absent names yield a source-only difference,
//! directory pairs are recursed into, and pairs that differ in kind or in
//! file modification time yield a both-sides difference.  A directory
//! present on one side only is reported as a single record for its whole
//! subtree, never descended into.

use vstd::prelude::*;
use crate::differences::{DiffModel, Difference};
use crate::tree::{
    lemma_lookup_finds, lemma_lookup_props, lookup_child, node_model, strings_equal, tree_wf,
    FsNode, TreeModel,
};

verus! {

/// The record for an entry present only in the source tree.
pub open spec fn source_only_diff(sc: TreeModel) -> DiffModel {
    DiffModel { source: Some(sc.entry), target: None }
}

/// The record for an entry present only in the target tree.
pub open spec fn target_only_diff(tc: TreeModel) -> DiffModel {
    DiffModel { source: None, target: Some(tc.entry) }
}

/// The record for a name present on both sides with differing contents.
pub open spec fn both_diff(sc: TreeModel, tc: TreeModel) -> DiffModel {
    DiffModel { source: Some(sc.entry), target: Some(tc.entry) }
}

/// Two same-named children differ when their kinds disagree, or both are
/// files with distinct modification times.  Two files with equal times
/// are treated as identical: content is never compared byte-wise.
pub open spec fn child_differs(sc: TreeModel, tc: TreeModel) -> bool {
    ||| sc.is_dir() != tc.is_dir()
    ||| (!sc.is_dir() && !tc.is_dir() && sc.entry.mtime() != tc.entry.mtime())
}

/// The target-only differences contributed by target children from
/// position `k` on.
pub open spec fn spec_target_from(scs: Seq<TreeModel>, tcs: Seq<TreeModel>, k: int) -> Seq<
    DiffModel,
>
    decreases tcs.len() - k,
{
    if k < 0 || k >= tcs.len() {
        Seq::empty()
    } else {
        (if lookup_child(scs, tcs[k].entry.name) is None {
            seq![target_only_diff(tcs[k])]
        } else {
            Seq::<DiffModel>::empty()
        }) + spec_target_from(scs, tcs, k + 1)
    }
}

/// The differences contributed by source children from position `k` on:
/// source-only records, both-sides records, and the recursive differences
/// of directory pairs.
pub open spec fn spec_source_from(scs: Seq<TreeModel>, tcs: Seq<TreeModel>, k: int) -> Seq<
    DiffModel,
>
    decreases scs, scs.len() - k + 1,
{
    if k < 0 || k >= scs.len() {
        Seq::empty()
    } else {
        (match lookup_child(tcs, scs[k].entry.name) {
            Option::Some(tc) => {
                if scs[k].is_dir() && tc.is_dir() {
                    spec_diffs(scs[k], tc)
                } else if child_differs(scs[k], tc) {
                    seq![both_diff(scs[k], tc)]
                } else {
                    Seq::<DiffModel>::empty()
                }
            },
            Option::None => seq![source_only_diff(scs[k])],
        }) + spec_source_from(scs, tcs, k + 1)
    }
}

/// All differences between two trees: target-only records first, then
/// the source-driven records, per directory level, recursively.
pub open spec fn spec_diffs(s: TreeModel, t: TreeModel) -> Seq<DiffModel>
    decreases s, 0int,
{
    spec_target_from(s.children, t.children, 0) + spec_source_from(s.children, t.children, 0)
}

/// The first child of `node` carrying `name`, if any.
pub(crate) fn find_child<'a>(node: &'a FsNode, name: &String) -> (r: Option<&'a FsNode>)
    ensures
        match r {
            Option::Some(c) => lookup_child(node@.children, name@) == Some(c@),
            Option::None => lookup_child(node@.children, name@) is None,
        },
{
    let n = node.children.len();
    let mut j: usize = 0;
    while j < n
        invariant
            0 <= j <= n,
            n == node.children@.len(),
            forall|b: int| 0 <= b < j ==> (#[trigger] node@.children[b]).entry.name != name@,
        decreases n - j,
    {
        proof {
            assert(node@.children[j as int] == node_model(node.children@[j as int]));
        }
        if strings_equal(name, &node.children[j].entry.name) {
            proof {
                lemma_lookup_finds(node@.children, name@, j as int);
            }
            return Some(&node.children[j]);
        }
        j += 1;
    }
    proof {
        lemma_lookup_props(node@.children, name@);
    }
    None
}

/// Appends one difference record to the collector.
fn push_diff(collector: &mut Vec<Difference>, d: Difference)
    ensures
        final(collector).deep_view() == old(collector).deep_view() + seq![d@],
{
    let ghost dv = d@;
    let ghost pre = collector.deep_view();
    collector.push(d);
    proof {
        assert(collector.deep_view() =~= pre + seq![dv]);
    }
}

/// Compares two snapshots.  The result is exactly [`spec_diffs`] of the
/// two trees.
pub fn find_differences(source: &FsNode, target: &FsNode) -> (r: Vec<Difference>)
    requires
        tree_wf(source@),
        tree_wf(target@),
    ensures
        r.deep_view() == spec_diffs(source@, target@),
{
    let mut collector: Vec<Difference> = Vec::new();
    proof {
        assert(collector.deep_view() =~= Seq::<DiffModel>::empty());
    }
    find_differences_rec(source, target, &mut collector);
    proof {
        assert(Seq::<DiffModel>::empty() + spec_diffs(source@, target@) =~= spec_diffs(
            source@,
            target@,
        ));
    }
    collector
}

/// One level of the comparison, recursing into directory pairs.  Appends
/// this level's differences to the collector.
pub fn find_differences_rec(dir1: &FsNode, dir2: &FsNode, collector: &mut Vec<Difference>)
    requires
        tree_wf(dir1@),
        tree_wf(dir2@),
    ensures
        final(collector).deep_view() == old(collector).deep_view() + spec_diffs(dir1@, dir2@),
    decreases *dir1,
{
    let ghost scs = dir1@.children;
    let ghost tcs = dir2@.children;
    let n2 = dir2.children.len();
    let mut k: usize = 0;
    while k < n2
        invariant
            0 <= k <= n2,
            n2 == dir2.children@.len(),
            collector.deep_view() + spec_target_from(dir1@.children, dir2@.children, k as int)
                =~= old(collector).deep_view() + spec_target_from(
                dir1@.children,
                dir2@.children,
                0,
            ),
        decreases n2 - k,
    {
        proof {
            assert(dir2@.children[k as int] == node_model(dir2.children@[k as int]));
        }
        let ghost pre = collector.deep_view();
        let found = find_child(dir1, &dir2.children[k].entry.name);
        if found.is_none() {
            let d = Difference { p_source: None, p_target: Some(dir2.children[k].entry.clone()) };
            proof {
                assert(d@ == target_only_diff(dir2@.children[k as int]));
            }
            push_diff(collector, d);
            proof {
                assert(collector.deep_view() + spec_target_from(
                    dir1@.children,
                    dir2@.children,
                    k + 1,
                ) =~= pre + spec_target_from(dir1@.children, dir2@.children, k as int));
            }
        } else {
            proof {
                assert(spec_target_from(dir1@.children, dir2@.children, k as int)
                    =~= Seq::<DiffModel>::empty() + spec_target_from(
                    dir1@.children,
                    dir2@.children,
                    k + 1,
                ));
                assert(collector.deep_view() + spec_target_from(
                    dir1@.children,
                    dir2@.children,
                    k + 1,
                ) =~= pre + spec_target_from(dir1@.children, dir2@.children, k as int));
            }
        }
        k += 1;
    }
    let ghost mid_goal = old(collector).deep_view() + spec_target_from(scs, tcs, 0)
        + spec_source_from(scs, tcs, 0);
    proof {
        assert(collector.deep_view() + spec_source_from(scs, tcs, 0) =~= mid_goal);
    }
    let n1 = dir1.children.len();
    let mut i: usize = 0;
    while i < n1
        invariant
            0 <= i <= n1,
            n1 == dir1.children@.len(),
            tree_wf(dir1@),
            tree_wf(dir2@),
            collector.deep_view() + spec_source_from(dir1@.children, dir2@.children, i as int)
                =~= mid_goal,
        decreases n1 - i,
    {
        proof {
            assert(dir1@.children[i as int] == node_model(dir1.children@[i as int]));
        }
        let ghost pre = collector.deep_view();
        let ghost sc = dir1@.children[i as int];
        let found = find_child(dir2, &dir1.children[i].entry.name);
        match found {
            Some(tc) => {
                proof {
                    lemma_lookup_props(dir2@.children, sc.entry.name);
                }
                let sc_is_dir = dir1.children[i].entry.is_dir();
                let tc_is_dir = tc.entry.is_dir();
                if sc_is_dir && tc_is_dir {
                    proof {
                        assert(decreases_to!(*dir1 => dir1.children@[i as int]));
                    }
                    find_differences_rec(&dir1.children[i], tc, collector);
                    proof {
                        assert(collector.deep_view() + spec_source_from(
                            dir1@.children,
                            dir2@.children,
                            i + 1,
                        ) =~= pre + spec_source_from(dir1@.children, dir2@.children, i as int));
                    }
                } else {
                    let differs: bool = if sc_is_dir != tc_is_dir {
                        true
                    } else {
                        dir1.children[i].entry.modified() != tc.entry.modified()
                    };
                    if differs {
                        let d = Difference {
                            p_source: Some(dir1.children[i].entry.clone()),
                            p_target: Some(tc.entry.clone()),
                        };
                        push_diff(collector, d);
                    }
                    proof {
                        assert(collector.deep_view() + spec_source_from(
                            dir1@.children,
                            dir2@.children,
                            i + 1,
                        ) =~= pre + spec_source_from(dir1@.children, dir2@.children, i as int));
                    }
                }
            },
            None => {
                let d = Difference {
                    p_source: Some(dir1.children[i].entry.clone()),
                    p_target: None,
                };
                push_diff(collector, d);
                proof {
                    assert(collector.deep_view() + spec_source_from(
                        dir1@.children,
                        dir2@.children,
                        i + 1,
                    ) =~= pre + spec_source_from(dir1@.children, dir2@.children, i as int));
                }
            },
        }
        i += 1;
    }
    proof {
        assert(spec_source_from(scs, tcs, n1 as int) =~= Seq::<DiffModel>::empty());
        assert(collector.deep_view() =~= collector.deep_view() + spec_source_from(
            scs,
            tcs,
            n1 as int,
        ));
        assert(collector.deep_view() =~= old(collector).deep_view() + (spec_target_from(
            scs,
            tcs,
            0,
        ) + spec_source_from(scs, tcs, 0)));
    }
}

} // verus!
