//! The sync applier's planning half: turns an approved difference into
//! the sequence of filesystem operations that propagates it, target
//! paths included.
//!
//! The operations themselves — copy a file and set its modification
//! time, create a directory and copy its permission bits, remove a file,
//! remove a directory recursively — are I/O and are executed outside
//! this crate.  Planning is pure: it reads the source subtree snapshot
//! and writes nothing, and the plan provably writes only under the
//! target root, never under the source root.

use vstd::prelude::*;
use vstd::string::{StrSliceExecFns, StringExecFns};
use crate::differences::{DiffModel, Difference};
use crate::entry::{EntryModel, Mtime};
use crate::paths::{
    lemma_child_strict, lemma_prefix_comparable, lemma_prefix_trans, path_prefix, paths_unrelated,
    strict_descendant,
};
use crate::tree::{child_path, join_path, node_model, tree_wf, FsNode, TreeModel};

verus! {

/// One filesystem operation of a plan.
pub enum SyncOp {
    /// Copy the file at `from` over `to`, then set `to`'s modification
    /// time to `modified`.
    CopyFile { from: String, to: String, modified: Mtime },
    /// Create the directory `to` (if it does not exist yet) and give it
    /// the permission bits of the directory at `from`.
    MakeDir { from: String, to: String },
    /// Remove the file at `path`.
    RemoveFile { path: String },
    /// Remove the directory at `path` with everything below it.
    RemoveDir { path: String },
}

/// The mathematical value of a [`SyncOp`].
pub ghost enum OpModel {
    CopyFile { from: Seq<char>, to: Seq<char>, modified: Mtime },
    MakeDir { from: Seq<char>, to: Seq<char> },
    RemoveFile { path: Seq<char> },
    RemoveDir { path: Seq<char> },
}

impl View for SyncOp {
    type V = OpModel;

    open spec fn view(&self) -> OpModel {
        match self {
            SyncOp::CopyFile { from, to, modified } => OpModel::CopyFile {
                from: from@,
                to: to@,
                modified: *modified,
            },
            SyncOp::MakeDir { from, to } => OpModel::MakeDir { from: from@, to: to@ },
            SyncOp::RemoveFile { path } => OpModel::RemoveFile { path: path@ },
            SyncOp::RemoveDir { path } => OpModel::RemoveDir { path: path@ },
        }
    }
}

impl DeepView for SyncOp {
    type V = OpModel;

    open spec fn deep_view(&self) -> OpModel {
        self.view()
    }
}

/// The path an operation creates, overwrites or removes.
pub open spec fn op_writes(op: OpModel) -> Seq<char> {
    match op {
        OpModel::CopyFile { to, .. } => to,
        OpModel::MakeDir { to, .. } => to,
        OpModel::RemoveFile { path } => path,
        OpModel::RemoveDir { path } => path,
    }
}

/// The path an operation reads, when it reads one.
pub open spec fn op_reads(op: OpModel) -> Option<Seq<char>> {
    match op {
        OpModel::CopyFile { from, .. } => Some(from),
        OpModel::MakeDir { from, .. } => Some(from),
        OpModel::RemoveFile { .. } => None,
        OpModel::RemoveDir { .. } => None,
    }
}

/// The operations that copy the subtree `t` to the path `dest`: one
/// operation per node, parents before children, every file keeping its
/// source modification time.
pub open spec fn spec_copy_ops(t: TreeModel, dest: Seq<char>) -> Seq<OpModel>
    decreases t, 0int,
{
    if !t.is_dir() {
        seq![OpModel::CopyFile { from: t.entry.path, to: dest, modified: t.entry.mtime() }]
    } else {
        seq![OpModel::MakeDir { from: t.entry.path, to: dest }] + spec_copy_children(
            t.children,
            dest,
            0,
        )
    }
}

/// The copy operations for children from position `k` on.
pub open spec fn spec_copy_children(cs: Seq<TreeModel>, dest: Seq<char>, k: int) -> Seq<OpModel>
    decreases cs, cs.len() - k + 1,
{
    if k < 0 || k >= cs.len() {
        Seq::empty()
    } else {
        spec_copy_ops(cs[k], child_path(dest, cs[k].entry.name)) + spec_copy_children(
            cs,
            dest,
            k + 1,
        )
    }
}

/// The source subtree handed to the planner, when one is handed over.
pub open spec fn sub_model(o: Option<&FsNode>) -> Option<TreeModel> {
    match o {
        Option::Some(n) => Some(n@),
        Option::None => None,
    }
}

/// What the planner needs of its input: a difference of one of the three
/// shapes (a both-sides pair never pairs two directories — the
/// comparison recurses into those instead of reporting them), the source
/// subtree snapshot whenever the source side is a directory, and a
/// source-only path that indeed lies under the source root, so that the
/// corresponding target path exists.
pub open spec fn plan_requires(
    d: DiffModel,
    sub: Option<TreeModel>,
    source_root: Seq<char>,
) -> bool {
    &&& d.valid()
    &&& d.is_both() ==> !(d.source->0.is_dir() && d.target->0.is_dir())
    &&& (d.source is Some && d.source->0.is_dir()) ==> sub is Some
    &&& sub is Some ==> (d.source is Some && tree_wf(sub->0) && sub->0.entry == d.source->0)
    &&& d.is_source_only() ==> strict_descendant(d.source->0.path, source_root)
}

/// The operations that copy the node described by `s` to `dest`:
/// the whole subtree for a directory, the single file otherwise.
pub open spec fn copy_node_ops(s: EntryModel, sub: Option<TreeModel>, dest: Seq<char>) -> Seq<
    OpModel,
> {
    if s.is_dir() {
        spec_copy_ops(sub->0, dest)
    } else {
        seq![OpModel::CopyFile { from: s.path, to: dest, modified: s.mtime() }]
    }
}

/// The target path that mirrors a source-only entry: the target root
/// plus the entry's path relative to the source root.
pub open spec fn mirrored_path(
    source_path: Seq<char>,
    source_root: Seq<char>,
    target_root: Seq<char>,
) -> Seq<char> {
    child_path(target_root, source_path.subrange(source_root.len() as int + 1, source_path.len() as int))
}

/// The full plan for one approved difference.
pub open spec fn spec_plan_difference(
    d: DiffModel,
    sub: Option<TreeModel>,
    source_root: Seq<char>,
    target_root: Seq<char>,
) -> Seq<OpModel>
    recommends
        plan_requires(d, sub, source_root),
{
    if d.is_both() {
        let s = d.source->0;
        let t = d.target->0;
        if !s.is_dir() && !t.is_dir() {
            seq![OpModel::CopyFile { from: s.path, to: t.path, modified: s.mtime() }]
        } else {
            (if t.is_dir() {
                seq![OpModel::RemoveDir { path: t.path }]
            } else {
                seq![OpModel::RemoveFile { path: t.path }]
            }) + copy_node_ops(s, sub, t.path)
        }
    } else if d.is_source_only() {
        copy_node_ops(d.source->0, sub, mirrored_path(d.source->0.path, source_root, target_root))
    } else {
        if d.target->0.is_dir() {
            seq![OpModel::RemoveDir { path: d.target->0.path }]
        } else {
            seq![OpModel::RemoveFile { path: d.target->0.path }]
        }
    }
}

/// Appends one operation to a plan.
fn push_op(ops: &mut Vec<SyncOp>, op: SyncOp)
    ensures
        final(ops).deep_view() == old(ops).deep_view() + seq![op@],
{
    let ghost ov = op@;
    let ghost pre = ops.deep_view();
    ops.push(op);
    proof {
        assert(ops.deep_view() =~= pre + seq![ov]);
    }
}

/// Appends the operations that copy the subtree `node` to `dest`.
pub fn plan_copy_tree(node: &FsNode, dest: &str, ops: &mut Vec<SyncOp>)
    ensures
        final(ops).deep_view() == old(ops).deep_view() + spec_copy_ops(node@, dest@),
    decreases *node,
{
    if !node.entry.is_dir() {
        let m = node.entry.modified();
        push_op(
            ops,
            SyncOp::CopyFile { from: node.entry.path.clone(), to: dest.to_owned(), modified: m },
        );
    } else {
        push_op(ops, SyncOp::MakeDir { from: node.entry.path.clone(), to: dest.to_owned() });
        let ghost base = old(ops).deep_view() + seq![
            OpModel::MakeDir { from: node@.entry.path, to: dest@ },
        ];
        let n = node.children.len();
        let mut i: usize = 0;
        while i < n
            invariant
                0 <= i <= n,
                n == node.children@.len(),
                ops.deep_view() + spec_copy_children(node@.children, dest@, i as int) =~= base
                    + spec_copy_children(node@.children, dest@, 0),
            decreases n - i,
        {
            proof {
                assert(node@.children[i as int] == node_model(node.children@[i as int]));
            }
            let ghost pre = ops.deep_view();
            let cdest = join_path(dest, node.children[i].entry.name.as_str());
            proof {
                assert(decreases_to!(*node => node.children@[i as int]));
            }
            plan_copy_tree(&node.children[i], cdest.as_str(), ops);
            proof {
                assert(ops.deep_view() + spec_copy_children(node@.children, dest@, i + 1) =~= pre
                    + spec_copy_children(node@.children, dest@, i as int));
            }
            i += 1;
        }
        proof {
            assert(spec_copy_children(node@.children, dest@, n as int)
                =~= Seq::<OpModel>::empty());
            assert(ops.deep_view() =~= ops.deep_view() + spec_copy_children(
                node@.children,
                dest@,
                n as int,
            ));
            assert(base + spec_copy_children(node@.children, dest@, 0) =~= old(ops).deep_view()
                + spec_copy_ops(node@, dest@));
        }
    }
}

/// Plans the operations for one approved difference.  `source_node` is
/// the snapshot of the source subtree the difference concerns, required
/// whenever that side is a directory.
pub fn plan_difference(
    d: &Difference,
    source_node: Option<&FsNode>,
    source_root: &str,
    target_root: &str,
) -> (r: Vec<SyncOp>)
    requires
        plan_requires(d@, sub_model(source_node), source_root@),
    ensures
        r.deep_view() == spec_plan_difference(
            d@,
            sub_model(source_node),
            source_root@,
            target_root@,
        ),
{
    let mut ops: Vec<SyncOp> = Vec::new();
    proof {
        assert(ops.deep_view() =~= Seq::<OpModel>::empty());
    }
    match (&d.p_source, &d.p_target) {
        (Some(s), Some(t)) => {
            if !s.is_dir() && !t.is_dir() {
                let m = s.modified();
                push_op(
                    &mut ops,
                    SyncOp::CopyFile { from: s.path.clone(), to: t.path.clone(), modified: m },
                );
            } else {
                if t.is_dir() {
                    push_op(&mut ops, SyncOp::RemoveDir { path: t.path.clone() });
                } else {
                    push_op(&mut ops, SyncOp::RemoveFile { path: t.path.clone() });
                }
                if s.is_dir() {
                    match source_node {
                        Some(n) => plan_copy_tree(n, t.path.as_str(), &mut ops),
                        None => unreached(),
                    }
                } else {
                    let m = s.modified();
                    push_op(
                        &mut ops,
                        SyncOp::CopyFile { from: s.path.clone(), to: t.path.clone(), modified: m },
                    );
                }
            }
        },
        (Some(s), None) => {
            let total = s.path.as_str().unicode_len();
            let prefix = source_root.unicode_len();
            let rel = s.path.as_str().substring_char(prefix + 1, total);
            let dest = join_path(target_root, rel);
            proof {
                assert(dest@ == mirrored_path(d@.source->0.path, source_root@, target_root@));
            }
            if s.is_dir() {
                match source_node {
                    Some(n) => plan_copy_tree(n, dest.as_str(), &mut ops),
                    None => unreached(),
                }
            } else {
                let m = s.modified();
                push_op(
                    &mut ops,
                    SyncOp::CopyFile { from: s.path.clone(), to: dest, modified: m },
                );
            }
        },
        (None, Some(t)) => {
            if t.is_dir() {
                push_op(&mut ops, SyncOp::RemoveDir { path: t.path.clone() });
            } else {
                push_op(&mut ops, SyncOp::RemoveFile { path: t.path.clone() });
            }
        },
        (None, None) => unreached(),
    }
    proof {
        assert(ops.deep_view() =~= spec_plan_difference(
            d@,
            sub_model(source_node),
            source_root@,
            target_root@,
        ));
    }
    ops
}

/// Every operation that copies the subtree `t` to `dest` writes at or
/// below `dest` and reads at or below `t`'s own path.
pub proof fn lemma_copy_ops_stay_below(t: TreeModel, dest: Seq<char>)
    requires
        tree_wf(t),
    ensures
        forall|k: int|
            0 <= k < spec_copy_ops(t, dest).len() ==> path_prefix(
                dest,
                op_writes(#[trigger] spec_copy_ops(t, dest)[k]),
            ),
        forall|k: int|
            0 <= k < spec_copy_ops(t, dest).len() ==> (op_reads(
                #[trigger] spec_copy_ops(t, dest)[k],
            ) matches Some(f) && path_prefix(t.entry.path, f)),
    decreases t, 0int,
{
    if !t.is_dir() {
    } else {
        lemma_copy_children_stay_below(t, t.children, dest, 0);
    }
}

proof fn lemma_copy_children_stay_below(t: TreeModel, cs: Seq<TreeModel>, dest: Seq<char>, k: int)
    requires
        tree_wf(t),
        cs == t.children,
    ensures
        forall|j: int|
            0 <= j < spec_copy_children(cs, dest, k).len() ==> path_prefix(
                dest,
                op_writes(#[trigger] spec_copy_children(cs, dest, k)[j]),
            ),
        forall|j: int|
            0 <= j < spec_copy_children(cs, dest, k).len() ==> (op_reads(
                #[trigger] spec_copy_children(cs, dest, k)[j],
            ) matches Some(f) && path_prefix(t.entry.path, f)),
    decreases cs, cs.len() - k + 1,
{
    if k < 0 || k >= cs.len() {
    } else {
        let child = cs[k];
        let cdest = child_path(dest, child.entry.name);
        lemma_copy_ops_stay_below(child, cdest);
        lemma_copy_children_stay_below(t, cs, dest, k + 1);
        lemma_child_strict(dest, child.entry.name);
        lemma_child_strict(t.entry.path, child.entry.name);
        let head = spec_copy_ops(child, cdest);
        let tail = spec_copy_children(cs, dest, k + 1);
        assert forall|j: int| 0 <= j < spec_copy_children(cs, dest, k).len() implies path_prefix(
            dest,
            op_writes(#[trigger] spec_copy_children(cs, dest, k)[j]),
        ) && (op_reads(spec_copy_children(cs, dest, k)[j]) matches Some(f) && path_prefix(
            t.entry.path,
            f,
        )) by {
            if j < head.len() {
                assert(spec_copy_children(cs, dest, k)[j] == head[j]);
                lemma_prefix_trans(dest, cdest, op_writes(head[j]));
                let f = op_reads(head[j])->0;
                lemma_prefix_trans(t.entry.path, child.entry.path, f);
            } else {
                assert(spec_copy_children(cs, dest, k)[j] == tail[j - head.len()]);
            }
        }
    }
}

/// Every planned operation writes at or below the target root.
pub proof fn lemma_plan_writes_under_target(
    d: DiffModel,
    sub: Option<TreeModel>,
    source_root: Seq<char>,
    target_root: Seq<char>,
)
    requires
        plan_requires(d, sub, source_root),
        d.target is Some ==> strict_descendant(d.target->0.path, target_root),
    ensures
        forall|k: int|
            0 <= k < spec_plan_difference(d, sub, source_root, target_root).len() ==> path_prefix(
                target_root,
                op_writes(#[trigger] spec_plan_difference(d, sub, source_root, target_root)[k]),
            ),
{
    let ops = spec_plan_difference(d, sub, source_root, target_root);
    if d.is_both() {
        let s = d.source->0;
        let t = d.target->0;
        if s.is_dir() {
            lemma_copy_ops_stay_below(sub->0, t.path);
        }
        assert forall|k: int| 0 <= k < ops.len() implies path_prefix(
            target_root,
            op_writes(#[trigger] ops[k]),
        ) by {
            if s.is_dir() && k >= 1 {
                assert(ops[k] == spec_copy_ops(sub->0, t.path)[k - 1]);
                lemma_prefix_trans(target_root, t.path, op_writes(ops[k]));
            } else {
                lemma_prefix_trans(target_root, t.path, op_writes(ops[k]));
            }
        }
    } else if d.is_source_only() {
        let s = d.source->0;
        let dest = mirrored_path(s.path, source_root, target_root);
        lemma_child_strict(
            target_root,
            s.path.subrange(source_root.len() as int + 1, s.path.len() as int),
        );
        if s.is_dir() {
            lemma_copy_ops_stay_below(sub->0, dest);
        }
        assert forall|k: int| 0 <= k < ops.len() implies path_prefix(
            target_root,
            op_writes(#[trigger] ops[k]),
        ) by {
            lemma_prefix_trans(target_root, dest, op_writes(ops[k]));
        }
    } else {
    }
}

/// Source immutability: under roots that do not contain one another, no
/// planned operation creates, modifies or deletes any path at or under
/// the source root.
pub proof fn lemma_plan_spares_source(
    d: DiffModel,
    sub: Option<TreeModel>,
    source_root: Seq<char>,
    target_root: Seq<char>,
)
    requires
        plan_requires(d, sub, source_root),
        d.target is Some ==> strict_descendant(d.target->0.path, target_root),
        paths_unrelated(source_root, target_root),
    ensures
        forall|k: int|
            0 <= k < spec_plan_difference(d, sub, source_root, target_root).len() ==> !path_prefix(
                source_root,
                op_writes(#[trigger] spec_plan_difference(d, sub, source_root, target_root)[k]),
            ),
{
    let ops = spec_plan_difference(d, sub, source_root, target_root);
    lemma_plan_writes_under_target(d, sub, source_root, target_root);
    assert forall|k: int| 0 <= k < ops.len() implies !path_prefix(
        source_root,
        op_writes(#[trigger] ops[k]),
    ) by {
        if path_prefix(source_root, op_writes(ops[k])) {
            lemma_prefix_comparable(source_root, target_root, op_writes(ops[k]));
        }
    }
}

} // verus!
