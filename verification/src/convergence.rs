//! The round-trip guarantee of the engine: applying a full difference
//! set makes the comparison come back empty.
//!
//! [`spec_apply_all`] is the target tree after every difference of one
//! comparison has been applied: target-only children disappear, missing
//! children are copied over (rebased to target paths), differing pairs
//! are replaced, directory pairs are synchronized recursively.
//! [`apply_all_differences`] computes that tree; the law
//! [`lemma_apply_all_converges`] proves that comparing the source
//! against it yields no difference.

use vstd::prelude::*;
use crate::compare::{child_differs, find_child, spec_diffs, spec_source_from, spec_target_from};
use crate::differences::DiffModel;
use crate::entry::{AnnotatedPath, EntryModel};
use crate::tree::{
    child_path, join_path, lemma_lookup_finds, lemma_lookup_props, lookup_child, node_model,
    tree_wf, FsNode, TreeModel,
};

verus! {

/// The subtree `t` as it stands after being copied to the path
/// `new_path`: the same names, kinds and file modification times, with
/// every full path re-rooted.
pub open spec fn rebase(t: TreeModel, new_path: Seq<char>) -> TreeModel
    decreases t,
{
    TreeModel {
        entry: EntryModel { path: new_path, name: t.entry.name, modified: t.entry.modified },
        children: Seq::new(
            t.children.len(),
            |i: int|
                if 0 <= i < t.children.len() {
                    rebase(t.children[i], child_path(new_path, t.children[i].entry.name))
                } else {
                    t
                },
        ),
    }
}

/// The target tree after the full difference set of one comparison has
/// been applied.  Children are driven by the source: a name found on
/// both sides is kept (files with equal times), synchronized recursively
/// (directory pairs), or replaced by a copy of the source node (all
/// other pairs); a name absent from the target is copied over; target
/// children whose names the source lacks are gone.
pub open spec fn spec_apply_all(s: TreeModel, t: TreeModel) -> TreeModel
    decreases s,
{
    TreeModel {
        entry: t.entry,
        children: Seq::new(
            s.children.len(),
            |i: int|
                if 0 <= i < s.children.len() {
                    let sc = s.children[i];
                    match lookup_child(t.children, sc.entry.name) {
                        Option::Some(tc) => {
                            if sc.is_dir() && tc.is_dir() {
                                spec_apply_all(sc, tc)
                            } else if !sc.is_dir() && !tc.is_dir() && sc.entry.mtime()
                                == tc.entry.mtime() {
                                tc
                            } else {
                                rebase(sc, tc.entry.path)
                            }
                        },
                        Option::None => rebase(sc, child_path(t.entry.path, sc.entry.name)),
                    }
                } else {
                    t
                },
        ),
    }
}

/// A copy keeps well-formedness: names, kinds and times are unchanged,
/// and every path is rebuilt from the new root.
pub proof fn lemma_rebase_wf(t: TreeModel, new_path: Seq<char>)
    requires
        tree_wf(t),
    ensures
        tree_wf(rebase(t, new_path)),
    decreases t,
{
    let rb = rebase(t, new_path);
    assert forall|i: int| 0 <= i < rb.children.len() implies tree_wf(
        #[trigger] rb.children[i],
    ) by {
        assert(rb.children[i] == rebase(
            t.children[i],
            child_path(new_path, t.children[i].entry.name),
        ));
        lemma_rebase_wf(t.children[i], child_path(new_path, t.children[i].entry.name));
    }
    assert forall|i: int| 0 <= i < rb.children.len() implies (#[trigger] rb.children[i]).entry.path
        == child_path(rb.entry.path, rb.children[i].entry.name) by {
        assert(rb.children[i] == rebase(
            t.children[i],
            child_path(new_path, t.children[i].entry.name),
        ));
    }
    assert forall|i: int, j: int| 0 <= i < j < rb.children.len() implies (
    #[trigger] rb.children[i]).entry.name != (#[trigger] rb.children[j]).entry.name by {
        assert(rb.children[i] == rebase(
            t.children[i],
            child_path(new_path, t.children[i].entry.name),
        ));
        assert(rb.children[j] == rebase(
            t.children[j],
            child_path(new_path, t.children[j].entry.name),
        ));
    }
    assert forall|i: int| 0 <= i < rb.children.len() implies crate::tree::valid_name(
        (#[trigger] rb.children[i]).entry.name,
    ) by {
        assert(rb.children[i] == rebase(
            t.children[i],
            child_path(new_path, t.children[i].entry.name),
        ));
    }
}

/// Applying the full difference set of two well-formed directory trees
/// leaves a well-formed tree behind.
pub proof fn lemma_apply_all_wf(s: TreeModel, t: TreeModel)
    requires
        tree_wf(s),
        tree_wf(t),
        s.is_dir(),
        t.is_dir(),
    ensures
        tree_wf(spec_apply_all(s, t)),
    decreases s,
{
    let ap = spec_apply_all(s, t);
    assert forall|i: int| 0 <= i < ap.children.len() implies tree_wf(#[trigger] ap.children[i])
        && ap.children[i].entry.path == child_path(ap.entry.path, ap.children[i].entry.name)
        && crate::tree::valid_name(ap.children[i].entry.name) by {
        let sc = s.children[i];
        lemma_apply_child_name(s, t, i);
        match lookup_child(t.children, sc.entry.name) {
            Option::Some(tc) => {
                lemma_lookup_props(t.children, sc.entry.name);
                if sc.is_dir() && tc.is_dir() {
                    assert(ap.children[i] == spec_apply_all(sc, tc));
                    assert(decreases_to!(s => sc));
                    lemma_apply_all_wf(sc, tc);
                } else if !sc.is_dir() && !tc.is_dir() && sc.entry.mtime() == tc.entry.mtime() {
                    assert(ap.children[i] == tc);
                } else {
                    assert(ap.children[i] == rebase(sc, tc.entry.path));
                    lemma_rebase_wf(sc, tc.entry.path);
                }
            },
            Option::None => {
                assert(ap.children[i] == rebase(sc, child_path(t.entry.path, sc.entry.name)));
                lemma_rebase_wf(sc, child_path(t.entry.path, sc.entry.name));
            },
        }
    }
    assert forall|i: int, j: int| 0 <= i < j < ap.children.len() implies (
    #[trigger] ap.children[i]).entry.name != (#[trigger] ap.children[j]).entry.name by {
        lemma_apply_child_name(s, t, i);
        lemma_apply_child_name(s, t, j);
    }
}

/// Comparing a subtree against a copy of itself finds no difference.
proof fn lemma_rebase_no_diffs(sc: TreeModel, p: Seq<char>)
    requires
        tree_wf(sc),
    ensures
        spec_diffs(sc, rebase(sc, p)) =~= Seq::<DiffModel>::empty(),
    decreases sc, sc.children.len() + 2,
{
    let rb = rebase(sc, p);
    lemma_rebase_target_side(sc, p, 0);
    lemma_rebase_source_side(sc, p, 0);
}

proof fn lemma_rebase_target_side(sc: TreeModel, p: Seq<char>, k: int)
    requires
        tree_wf(sc),
    ensures
        spec_target_from(sc.children, rebase(sc, p).children, k) =~= Seq::<DiffModel>::empty(),
    decreases sc.children.len() - k,
{
    let rb = rebase(sc, p);
    if 0 <= k < rb.children.len() {
        assert(rb.children[k] == rebase(
            sc.children[k],
            child_path(p, sc.children[k].entry.name),
        ));
        assert(sc.children[k].entry.name == rb.children[k].entry.name);
        lemma_lookup_finds(sc.children, rb.children[k].entry.name, k);
        lemma_rebase_target_side(sc, p, k + 1);
    }
}

proof fn lemma_rebase_source_side(sc: TreeModel, p: Seq<char>, k: int)
    requires
        tree_wf(sc),
    ensures
        spec_source_from(sc.children, rebase(sc, p).children, k) =~= Seq::<DiffModel>::empty(),
    decreases sc, sc.children.len() - k + 1,
{
    let rb = rebase(sc, p);
    if 0 <= k < sc.children.len() {
        let child = sc.children[k];
        let rc = rebase(child, child_path(p, child.entry.name));
        assert(rb.children[k] == rc);
        assert forall|b: int| 0 <= b < k implies (#[trigger] rb.children[b]).entry.name
            != child.entry.name by {
            assert(rb.children[b] == rebase(
                sc.children[b],
                child_path(p, sc.children[b].entry.name),
            ));
        }
        lemma_lookup_finds(rb.children, child.entry.name, k);
        if child.is_dir() {
            assert(decreases_to!(sc => child));
            lemma_rebase_no_diffs(child, child_path(p, child.entry.name));
        } else {
            assert(!child_differs(child, rc));
        }
        lemma_rebase_source_side(sc, p, k + 1);
    }
}

/// Idempotence / convergence: after the full difference set of
/// `compare(s, t)` is applied to the target, comparing the same source
/// against the result yields an empty difference sequence.
pub proof fn lemma_apply_all_converges(s: TreeModel, t: TreeModel)
    requires
        tree_wf(s),
        tree_wf(t),
    ensures
        spec_diffs(s, spec_apply_all(s, t)) =~= Seq::<DiffModel>::empty(),
    decreases s, s.children.len() + 2,
{
    let ap = spec_apply_all(s, t);
    lemma_apply_target_side(s, t, 0);
    lemma_apply_source_side(s, t, 0);
}

proof fn lemma_apply_child_name(s: TreeModel, t: TreeModel, k: int)
    requires
        0 <= k < s.children.len(),
    ensures
        spec_apply_all(s, t).children[k].entry.name == s.children[k].entry.name,
{
    let ap = spec_apply_all(s, t);
    let sc = s.children[k];
    match lookup_child(t.children, sc.entry.name) {
        Option::Some(tc) => {
            lemma_lookup_props(t.children, sc.entry.name);
            assert(tc.entry.name == sc.entry.name);
            if sc.is_dir() && tc.is_dir() {
                assert(ap.children[k] == spec_apply_all(sc, tc));
                assert(spec_apply_all(sc, tc).entry == tc.entry);
            } else if !sc.is_dir() && !tc.is_dir() && sc.entry.mtime() == tc.entry.mtime() {
                assert(ap.children[k] == tc);
            } else {
                assert(ap.children[k] == rebase(sc, tc.entry.path));
            }
        },
        Option::None => {
            assert(ap.children[k] == rebase(sc, child_path(t.entry.path, sc.entry.name)));
        },
    }
}

proof fn lemma_apply_target_side(s: TreeModel, t: TreeModel, k: int)
    requires
        tree_wf(s),
    ensures
        spec_target_from(s.children, spec_apply_all(s, t).children, k) =~= Seq::<
            DiffModel,
        >::empty(),
    decreases s.children.len() - k,
{
    let ap = spec_apply_all(s, t);
    if 0 <= k < ap.children.len() {
        lemma_apply_child_name(s, t, k);
        lemma_lookup_finds(s.children, ap.children[k].entry.name, k);
        lemma_apply_target_side(s, t, k + 1);
    }
}

proof fn lemma_apply_source_side(s: TreeModel, t: TreeModel, k: int)
    requires
        tree_wf(s),
        tree_wf(t),
    ensures
        spec_source_from(s.children, spec_apply_all(s, t).children, k) =~= Seq::<
            DiffModel,
        >::empty(),
    decreases s, s.children.len() - k + 1,
{
    let ap = spec_apply_all(s, t);
    if 0 <= k < s.children.len() {
        let sc = s.children[k];
        assert forall|b: int| 0 <= b < k implies (#[trigger] ap.children[b]).entry.name
            != sc.entry.name by {
            lemma_apply_child_name(s, t, b);
        }
        lemma_apply_child_name(s, t, k);
        lemma_lookup_finds(ap.children, sc.entry.name, k);
        let apk = ap.children[k];
        match lookup_child(t.children, sc.entry.name) {
            Option::Some(tc) => {
                lemma_lookup_props(t.children, sc.entry.name);
                if sc.is_dir() && tc.is_dir() {
                    assert(apk == spec_apply_all(sc, tc));
                    assert(apk.entry == tc.entry);
                    assert(decreases_to!(s => sc));
                    lemma_apply_all_converges(sc, tc);
                } else if !sc.is_dir() && !tc.is_dir() && sc.entry.mtime() == tc.entry.mtime() {
                    assert(apk == tc);
                    assert(!child_differs(sc, apk));
                } else {
                    assert(apk == rebase(sc, tc.entry.path));
                    if sc.is_dir() {
                        assert(decreases_to!(s => sc));
                        lemma_rebase_no_diffs(sc, tc.entry.path);
                    } else {
                        assert(!child_differs(sc, apk));
                    }
                }
            },
            Option::None => {
                assert(apk == rebase(sc, child_path(t.entry.path, sc.entry.name)));
                if sc.is_dir() {
                    assert(decreases_to!(s => sc));
                    lemma_rebase_no_diffs(sc, child_path(t.entry.path, sc.entry.name));
                } else {
                    assert(!child_differs(sc, apk));
                }
            },
        }
        lemma_apply_source_side(s, t, k + 1);
    }
}

/// Builds the copy of `node` as it stands once copied to `new_path`.
fn rebase_tree(node: &FsNode, new_path: &str) -> (r: FsNode)
    ensures
        r@ == rebase(node@, new_path@),
    decreases *node,
{
    let entry = AnnotatedPath {
        path: new_path.to_owned(),
        name: node.entry.name.clone(),
        modified: node.entry.modified,
    };
    let mut kids: Vec<FsNode> = Vec::new();
    let mut i: usize = 0;
    while i < node.children.len()
        invariant
            0 <= i <= node.children.len(),
            kids@.len() == i,
            forall|b: int|
                0 <= b < i ==> (#[trigger] kids@[b])@ == rebase(node@, new_path@).children[b],
        decreases node.children.len() - i,
    {
        proof {
            assert(node@.children[i as int] == node_model(node.children@[i as int]));
            assert(decreases_to!(*node => node.children@[i as int]));
        }
        let cdest = join_path(new_path, node.children[i].entry.name.as_str());
        let child = rebase_tree(&node.children[i], cdest.as_str());
        kids.push(child);
        i += 1;
    }
    let r = FsNode { entry, children: kids };
    proof {
        assert(r@.children =~= rebase(node@, new_path@).children);
        assert(r@ =~= rebase(node@, new_path@));
    }
    r
}

/// Computes the target tree as it stands after the full difference set
/// of `compare(source, target)` has been applied: the tree that the
/// filesystem operations of a complete, successful run leave behind.
pub fn apply_all_differences(source: &FsNode, target: &FsNode) -> (r: FsNode)
    requires
        tree_wf(source@),
        tree_wf(target@),
    ensures
        r@ == spec_apply_all(source@, target@),
        source@.is_dir() && target@.is_dir() ==> tree_wf(r@),
    decreases *source,
{
    proof {
        if source@.is_dir() && target@.is_dir() {
            lemma_apply_all_wf(source@, target@);
        }
    }
    let entry = target.entry.clone();
    let ghost ap = spec_apply_all(source@, target@);
    let mut kids: Vec<FsNode> = Vec::new();
    let mut i: usize = 0;
    while i < source.children.len()
        invariant
            0 <= i <= source.children.len(),
            tree_wf(source@),
            tree_wf(target@),
            ap == spec_apply_all(source@, target@),
            kids@.len() == i,
            forall|b: int| 0 <= b < i ==> (#[trigger] kids@[b])@ == ap.children[b],
        decreases source.children.len() - i,
    {
        proof {
            assert(source@.children[i as int] == node_model(source.children@[i as int]));
        }
        let sc = &source.children[i];
        let found = find_child(target, &sc.entry.name);
        let next: FsNode = match found {
            Some(tc) => {
                proof {
                    lemma_lookup_props(target@.children, source@.children[i as int].entry.name);
                }
                let sc_dir = sc.entry.is_dir();
                let tc_dir = tc.entry.is_dir();
                if sc_dir && tc_dir {
                    proof {
                        assert(decreases_to!(*source => source.children@[i as int]));
                    }
                    apply_all_differences(&source.children[i], tc)
                } else if !sc_dir && !tc_dir && sc.entry.modified() == tc.entry.modified() {
                    tc.clone()
                } else {
                    rebase_tree(&source.children[i], tc.entry.path.as_str())
                }
            },
            None => {
                let dest = join_path(target.entry.path.as_str(), sc.entry.name.as_str());
                rebase_tree(&source.children[i], dest.as_str())
            },
        };
        kids.push(next);
        i += 1;
    }
    let r = FsNode { entry, children: kids };
    proof {
        assert(r@.children =~= ap.children);
        assert(r@ =~= ap);
    }
    r
}

} // verus!
