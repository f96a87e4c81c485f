//! In-memory scenarios for the synchronizer core: tree comparison,
//! problem detection, planning, and the apply round trip.

use dirsync::apply::{plan_difference, SyncOp};
use dirsync::compare::find_differences;
use dirsync::convergence::apply_all_differences;
use dirsync::differences::{Difference, NodeKind};
use dirsync::entry::AnnotatedPath;
use dirsync::select::{approved_subset, default_selection};
use dirsync::tree::FsNode;
use dirsync::verify::{divergence_watermark, verify_source_fully_newer_than_target, Problem};

fn f(name: &str, mtime: u128) -> FsNode {
    FsNode {
        entry: AnnotatedPath {
            path: String::new(),
            name: name.to_string(),
            modified: Some(mtime),
        },
        children: Vec::new(),
    }
}

fn d(name: &str, children: Vec<FsNode>) -> FsNode {
    FsNode {
        entry: AnnotatedPath { path: String::new(), name: name.to_string(), modified: None },
        children,
    }
}

fn fix_paths(node: &mut FsNode, parent: &str) {
    node.entry.path = format!("{}/{}", parent, node.entry.name);
    let here = node.entry.path.clone();
    for c in node.children.iter_mut() {
        fix_paths(c, &here);
    }
}

fn root(path: &str, children: Vec<FsNode>) -> FsNode {
    let mut n = FsNode {
        entry: AnnotatedPath { path: path.to_string(), name: "root".to_string(), modified: None },
        children,
    };
    let here = n.entry.path.clone();
    for c in n.children.iter_mut() {
        fix_paths(c, &here);
    }
    n
}

fn child_mut<'a>(node: &'a mut FsNode, name: &str) -> &'a mut FsNode {
    node.children
        .iter_mut()
        .find(|c| c.entry.name == name)
        .expect("no such child")
}

fn remove_child(node: &mut FsNode, name: &str) {
    let i = node
        .children
        .iter()
        .position(|c| c.entry.name == name)
        .expect("no such child");
    node.children.remove(i);
}

fn refresh(node: &mut FsNode) {
    let here = node.entry.path.clone();
    for c in node.children.iter_mut() {
        fix_paths(c, &here);
    }
}

/// The tree the original scenarios all start from, every file at time 100.
fn base_source(path: &str) -> FsNode {
    root(
        path,
        vec![
            d("d1", vec![f("d1f1", 100), f("d1f2", 100)]),
            d(
                "d2",
                vec![
                    d("d2d1", vec![]),
                    f("d2f1", 100),
                    f("d2f2", 100),
                    f("d2f3", 100),
                    f("d2f4", 100),
                ],
            ),
            d(
                "d3",
                vec![d(
                    "d3d1",
                    vec![d(
                        "d3d1d1",
                        vec![d("d3d1d1d1", vec![]), f("d3d1d1f1", 100), f("d3d1d1f2", 100)],
                    )],
                )],
            ),
            f("f1", 100),
            f("f2", 100),
        ],
    )
}

/// Compares, checks the problem expectation, applies the full difference
/// set, and checks that the comparison then comes back empty.
fn run_synchronization_as_test(
    source: &FsNode,
    target: &FsNode,
    problems_assumed_empty: bool,
) -> FsNode {
    assert!(source.well_formed());
    assert!(target.well_formed());
    let diffs = find_differences(source, target);
    let problems = verify_source_fully_newer_than_target(&diffs);
    let any_problem = problems.iter().any(|p| p.is_some());
    assert_eq!(problems_assumed_empty, !any_problem);
    let new_target = apply_all_differences(source, target);
    assert!(new_target.well_formed());
    let diffs_after = find_differences(source, &new_target);
    assert!(diffs_after.is_empty());
    new_target
}

/// A synchronized pair of trees: the base source and the target a full
/// apply run produces from it.
fn synced_pair() -> (FsNode, FsNode) {
    let source = base_source("env/source");
    let target_empty = root("env/target", vec![]);
    let target = run_synchronization_as_test(&source, &target_empty, true);
    (source, target)
}

#[test]
fn test_new_file_in_source() {
    let (mut source, target) = synced_pair();
    child_mut(child_mut(&mut source, "d2"), "d2d1")
        .children
        .push(f("d2d1f1", 200));
    refresh(&mut source);
    let diffs = find_differences(&source, &target);
    assert_eq!(diffs.len(), 1);
    assert!(diffs[0].p_source.is_some() && diffs[0].p_target.is_none());
    assert_eq!(diffs[0].ps_path(), "env/source/d2/d2d1/d2d1f1");
    run_synchronization_as_test(&source, &target, true);
}

#[test]
fn test_file_updated_in_source() {
    let (mut source, target) = synced_pair();
    child_mut(&mut source, "f1").entry.modified = Some(200);
    let diffs = find_differences(&source, &target);
    assert_eq!(diffs.len(), 1);
    assert!(diffs[0].p_source.is_some() && diffs[0].p_target.is_some());
    assert_eq!(diffs[0].ps_modified(), 200);
    assert_eq!(diffs[0].pt_modified(), 100);
    let new_target = run_synchronization_as_test(&source, &target, true);
    assert_eq!(
        new_target
            .children
            .iter()
            .find(|c| c.entry.name == "f1")
            .unwrap()
            .entry
            .modified,
        Some(200)
    );
}

#[test]
fn test_file_updated_in_target() {
    let (source, mut target) = synced_pair();
    child_mut(&mut target, "f2").entry.modified = Some(200);
    let diffs = find_differences(&source, &target);
    assert_eq!(diffs.len(), 1);
    let problems = verify_source_fully_newer_than_target(&diffs);
    assert_eq!(problems[0], Some(Problem::NewerInBackup));
    run_synchronization_as_test(&source, &target, false);
}

#[test]
fn test_stuff_updated_in_source_and_target() {
    let (mut source, mut target) = synced_pair();
    child_mut(&mut source, "f1").entry.modified = Some(200);
    child_mut(&mut target, "f2").entry.modified = Some(200);
    {
        let deep = child_mut(
            child_mut(child_mut(&mut source, "d3"), "d3d1"),
            "d3d1d1",
        );
        child_mut(deep, "d3d1d1f1").entry.modified = Some(200);
    }
    {
        let deep = child_mut(
            child_mut(child_mut(&mut target, "d3"), "d3d1"),
            "d3d1d1",
        );
        child_mut(deep, "d3d1d1d1").children.push(f("d3d1d1d1f1", 200));
        child_mut(deep, "d3d1d1f2").entry.modified = Some(200);
    }
    remove_child(&mut source, "d1");
    remove_child(&mut target, "d2");
    refresh(&mut source);
    refresh(&mut target);
    run_synchronization_as_test(&source, &target, false);
}

#[test]
fn test_new_empty_directory_in_source() {
    let (mut source, target) = synced_pair();
    child_mut(&mut source, "d2").children.push(d("d2d2", vec![]));
    refresh(&mut source);
    let diffs = find_differences(&source, &target);
    assert_eq!(diffs.len(), 1);
    assert_eq!(diffs[0].is_dir(), NodeKind::Directory);
    run_synchronization_as_test(&source, &target, true);
}

#[test]
fn test_new_full_directory_in_source() {
    let (mut source, target) = synced_pair();
    child_mut(&mut source, "d2").children.push(d(
        "d2d2",
        vec![
            f("d2d2f1", 200),
            f("d2d2f2", 200),
            d("d2d2d1", vec![f("d2d2d1f1", 200)]),
        ],
    ));
    refresh(&mut source);
    let diffs = find_differences(&source, &target);
    assert_eq!(diffs.len(), 1, "one self-contained record for the whole subtree");
    assert!(diffs[0].p_target.is_none());
    assert_eq!(diffs[0].is_dir(), NodeKind::Directory);
    run_synchronization_as_test(&source, &target, true);
}

#[test]
fn test_full_directory_deleted_in_target() {
    let (source, mut target) = synced_pair();
    remove_child(&mut target, "d3");
    let diffs = find_differences(&source, &target);
    assert_eq!(diffs.len(), 1);
    assert!(diffs[0].p_target.is_none());
    run_synchronization_as_test(&source, &target, true);
}

#[test]
fn test_new_file_in_target() {
    let (source, mut target) = synced_pair();
    target.children.push(f("f3", 200));
    refresh(&mut target);
    let diffs = find_differences(&source, &target);
    assert_eq!(diffs.len(), 1);
    assert!(diffs[0].p_source.is_none());
    let problems = verify_source_fully_newer_than_target(&diffs);
    assert_eq!(problems[0], Some(Problem::FileNotInSourceAndNotOld));
    let new_target = run_synchronization_as_test(&source, &target, false);
    assert!(new_target.children.iter().all(|c| c.entry.name != "f3"));
}

#[test]
fn test_new_empty_directory_in_target() {
    let (source, mut target) = synced_pair();
    target.children.push(d("d4", vec![]));
    refresh(&mut target);
    let diffs = find_differences(&source, &target);
    assert_eq!(diffs.len(), 1);
    let problems = verify_source_fully_newer_than_target(&diffs);
    assert_eq!(problems[0], Some(Problem::DirectoryNotInSource));
    run_synchronization_as_test(&source, &target, false);
}

#[test]
fn test_new_full_directory_in_target() {
    let (source, mut target) = synced_pair();
    target
        .children
        .push(d("d4", vec![f("d4f1", 200), f("d4f2", 200)]));
    refresh(&mut target);
    let diffs = find_differences(&source, &target);
    assert_eq!(diffs.len(), 1, "one self-contained record for the whole subtree");
    let problems = verify_source_fully_newer_than_target(&diffs);
    assert_eq!(problems[0], Some(Problem::DirectoryNotInSource));
    run_synchronization_as_test(&source, &target, false);
}

#[test]
fn test_file_deleted_in_source_and_other_file_changed() {
    let (mut source, target) = synced_pair();
    remove_child(&mut source, "f1");
    child_mut(child_mut(&mut source, "d1"), "d1f2").entry.modified = Some(200);
    // The changed pair moves the divergence watermark past the deleted
    // file's timestamp, so the deletion is not wrongly flagged.
    run_synchronization_as_test(&source, &target, true);
}

#[test]
fn test_file_deleted_in_source() {
    let (mut source, target) = synced_pair();
    remove_child(&mut source, "f1");
    // Undetectable whether the file was deleted in source or added to the
    // backup: with no watermark evidence, when in doubt it is a problem.
    run_synchronization_as_test(&source, &target, false);
}

#[test]
fn test_empty_directory_deleted_in_source() {
    let (mut source, target) = synced_pair();
    {
        let deep = child_mut(
            child_mut(child_mut(&mut source, "d3"), "d3d1"),
            "d3d1d1",
        );
        remove_child(deep, "d3d1d1d1");
    }
    // A directory carries no timestamp, so the deletion cannot be told
    // from an addition to the backup: always a problem.
    run_synchronization_as_test(&source, &target, false);
}

#[test]
fn test_full_directory_deleted_in_source() {
    let (mut source, target) = synced_pair();
    remove_child(&mut source, "d3");
    run_synchronization_as_test(&source, &target, false);
}

#[test]
fn test_kind_conflict_replaced_whole() {
    let source = root(
        "env/source",
        vec![d("x", vec![f("inner", 100)]), f("y", 100)],
    );
    let target = root("env/target", vec![f("x", 50), d("y", vec![])]);
    assert!(source.well_formed() && target.well_formed());
    let diffs = find_differences(&source, &target);
    assert_eq!(diffs.len(), 2);
    for diff in &diffs {
        assert!(diff.p_source.is_some() && diff.p_target.is_some());
        assert_eq!(diff.is_dir(), NodeKind::Conflict);
    }
    // A kind conflict is never an unrecoverable fault, and not a problem.
    let problems = verify_source_fully_newer_than_target(&diffs);
    assert!(problems.iter().all(|p| p.is_none()));
    let new_target = apply_all_differences(&source, &target);
    assert!(find_differences(&source, &new_target).is_empty());
}

#[test]
fn test_watermark_exact_value() {
    let (mut source, mut target) = synced_pair();
    child_mut(&mut source, "f1").entry.modified = Some(300);
    child_mut(&mut source, "f2").entry.modified = Some(250);
    child_mut(&mut target, "f2").entry.modified = Some(70);
    let diffs = find_differences(&source, &target);
    assert_eq!(divergence_watermark(&diffs), 300);
}

#[test]
fn test_watermark_empty_is_epoch() {
    let diffs: Vec<Difference> = Vec::new();
    assert_eq!(divergence_watermark(&diffs), 0);
    assert!(verify_source_fully_newer_than_target(&diffs).is_empty());
}

#[test]
fn test_watermark_guards_old_target_file() {
    // Target-only file older than the watermark: provably stale, no
    // problem.  At or past the watermark: a problem.
    let (mut source, mut target) = synced_pair();
    child_mut(&mut source, "f1").entry.modified = Some(300);
    target.children.push(f("old", 150));
    target.children.push(f("fresh", 300));
    refresh(&mut target);
    let diffs = find_differences(&source, &target);
    let problems = verify_source_fully_newer_than_target(&diffs);
    for (i, diff) in diffs.iter().enumerate() {
        if diff.p_source.is_none() {
            let name = diff.file_name().to_string();
            if name == "old" {
                assert_eq!(problems[i], None);
            } else {
                assert_eq!(problems[i], Some(Problem::FileNotInSourceAndNotOld));
            }
        }
    }
}

#[test]
fn test_describe_texts() {
    let newer = Difference {
        p_source: Some(AnnotatedPath {
            path: "s/f1".to_string(),
            name: "f1".to_string(),
            modified: Some(200),
        }),
        p_target: Some(AnnotatedPath {
            path: "t/f1".to_string(),
            name: "f1".to_string(),
            modified: Some(100),
        }),
    };
    assert_eq!(newer.describe(), "MODIFIED (source is newer): FILE[f1]");
    assert_eq!(newer.describe_short(), "MODIFIED (source new): FILE[\"f1\"]");
    let new_in_source = Difference {
        p_source: Some(AnnotatedPath {
            path: "s/d1".to_string(),
            name: "d1".to_string(),
            modified: None,
        }),
        p_target: None,
    };
    assert_eq!(
        new_in_source.describe(),
        "NEW in source (or deleted in backup): DIR[d1]"
    );
    assert_eq!(new_in_source.describe_short(), "NEW: DIR[\"d1\"]");
    let deleted = Difference {
        p_source: None,
        p_target: Some(AnnotatedPath {
            path: "t/f3".to_string(),
            name: "f3".to_string(),
            modified: Some(100),
        }),
    };
    assert_eq!(
        deleted.describe(),
        "DELETED in source (or new in backup): FILE[f3]"
    );
    assert_eq!(deleted.describe_short(), "DELETED: FILE[\"f3\"]");
    let conflict = Difference {
        p_source: Some(AnnotatedPath {
            path: "s/x".to_string(),
            name: "x".to_string(),
            modified: None,
        }),
        p_target: Some(AnnotatedPath {
            path: "t/x".to_string(),
            name: "x".to_string(),
            modified: Some(100),
        }),
    };
    assert_eq!(conflict.describe(), "MODIFIED (kind conflict): CONFLICT[x]");
    assert_eq!(conflict.is_dir(), NodeKind::Conflict);
}

#[test]
fn test_problem_descriptions() {
    assert_eq!(
        Problem::NewerInBackup.description(),
        "NEWER in backup directory"
    );
    assert_eq!(
        Problem::DirectoryNotInSource.description(),
        "Directory exists in backup directory, but NOT in source directory."
    );
    assert_eq!(
        Problem::FileNotInSourceAndNotOld.description(),
        "File exists in backup directory, but NOT in source directory and cannot be verified to be old."
    );
}

#[test]
fn test_get_directory_path() {
    let diff = Difference {
        p_source: Some(AnnotatedPath {
            path: "env/source/d2/d2d1/d2d1f1".to_string(),
            name: "d2d1f1".to_string(),
            modified: Some(100),
        }),
        p_target: None,
    };
    assert_eq!(diff.get_directory_path("env/source".len(), 0), "/d2/d2d1/");
    let tgt = Difference {
        p_source: None,
        p_target: Some(AnnotatedPath {
            path: "env/target/f3".to_string(),
            name: "f3".to_string(),
            modified: Some(100),
        }),
    };
    assert_eq!(tgt.get_directory_path(0, "env/target".len()), "/");
}

#[test]
fn test_annotated_path_accessors() {
    let file = AnnotatedPath {
        path: "s/f".to_string(),
        name: "f".to_string(),
        modified: Some(42),
    };
    assert!(!file.is_dir());
    assert_eq!(file.modified(), 42);
    let dir_entry = AnnotatedPath {
        path: "s/d".to_string(),
        name: "d".to_string(),
        modified: None,
    };
    assert!(dir_entry.is_dir());
}

#[test]
fn test_well_formed_rejects_bad_trees() {
    let good = root("env/source", vec![f("a", 1), d("b", vec![f("c", 2)])]);
    assert!(good.well_formed());
    let dup = root("env/source", vec![f("a", 1), f("a", 2)]);
    assert!(!dup.well_formed());
    let mut bad_path = root("env/source", vec![f("a", 1)]);
    bad_path.children[0].entry.path = "elsewhere/a".to_string();
    assert!(!bad_path.well_formed());
    let slash = root("env/source", vec![f("a/b", 1)]);
    assert!(!slash.well_formed());
    let mut file_with_children = root("env/source", vec![d("a", vec![f("b", 1)])]);
    file_with_children.children[0].entry.modified = Some(5);
    assert!(!file_with_children.well_formed());
}

#[test]
fn test_plan_remove_target_only() {
    let diff = Difference {
        p_source: None,
        p_target: Some(AnnotatedPath {
            path: "env/target/f3".to_string(),
            name: "f3".to_string(),
            modified: Some(100),
        }),
    };
    let ops = plan_difference(&diff, None, "env/source", "env/target");
    assert_eq!(ops.len(), 1);
    assert!(matches!(&ops[0], SyncOp::RemoveFile { path } if path == "env/target/f3"));
    let dir_diff = Difference {
        p_source: None,
        p_target: Some(AnnotatedPath {
            path: "env/target/d4".to_string(),
            name: "d4".to_string(),
            modified: None,
        }),
    };
    let ops = plan_difference(&dir_diff, None, "env/source", "env/target");
    assert_eq!(ops.len(), 1);
    assert!(matches!(&ops[0], SyncOp::RemoveDir { path } if path == "env/target/d4"));
}

#[test]
fn test_plan_copy_file_pair() {
    let diff = Difference {
        p_source: Some(AnnotatedPath {
            path: "env/source/f1".to_string(),
            name: "f1".to_string(),
            modified: Some(200),
        }),
        p_target: Some(AnnotatedPath {
            path: "env/target/f1".to_string(),
            name: "f1".to_string(),
            modified: Some(100),
        }),
    };
    let ops = plan_difference(&diff, None, "env/source", "env/target");
    assert_eq!(ops.len(), 1);
    assert!(matches!(
        &ops[0],
        SyncOp::CopyFile { from, to, modified }
            if from == "env/source/f1" && to == "env/target/f1" && *modified == 200
    ));
}

#[test]
fn test_plan_copy_new_directory() {
    let mut subtree = d("d2d2", vec![f("d2d2f1", 200), d("d2d2d1", vec![f("x", 300)])]);
    fix_paths(&mut subtree, "env/source/d2");
    let diff = Difference {
        p_source: Some(subtree.entry.clone()),
        p_target: None,
    };
    let ops = plan_difference(&diff, Some(&subtree), "env/source", "env/target");
    assert_eq!(ops.len(), 4);
    assert!(matches!(
        &ops[0],
        SyncOp::MakeDir { from, to }
            if from == "env/source/d2/d2d2" && to == "env/target/d2/d2d2"
    ));
    assert!(matches!(
        &ops[1],
        SyncOp::CopyFile { from, to, modified }
            if from == "env/source/d2/d2d2/d2d2f1"
                && to == "env/target/d2/d2d2/d2d2f1"
                && *modified == 200
    ));
    assert!(matches!(
        &ops[2],
        SyncOp::MakeDir { from, to }
            if from == "env/source/d2/d2d2/d2d2d1" && to == "env/target/d2/d2d2/d2d2d1"
    ));
    assert!(matches!(
        &ops[3],
        SyncOp::CopyFile { from, to, modified }
            if from == "env/source/d2/d2d2/d2d2d1/x"
                && to == "env/target/d2/d2d2/d2d2d1/x"
                && *modified == 300
    ));
}

#[test]
fn test_plan_kind_conflict() {
    let mut subtree = d("x", vec![f("inner", 100)]);
    fix_paths(&mut subtree, "env/source");
    let diff = Difference {
        p_source: Some(subtree.entry.clone()),
        p_target: Some(AnnotatedPath {
            path: "env/target/x".to_string(),
            name: "x".to_string(),
            modified: Some(50),
        }),
    };
    let ops = plan_difference(&diff, Some(&subtree), "env/source", "env/target");
    assert_eq!(ops.len(), 3);
    assert!(matches!(&ops[0], SyncOp::RemoveFile { path } if path == "env/target/x"));
    assert!(matches!(
        &ops[1],
        SyncOp::MakeDir { from, to } if from == "env/source/x" && to == "env/target/x"
    ));
    assert!(matches!(
        &ops[2],
        SyncOp::CopyFile { from, to, .. }
            if from == "env/source/x/inner" && to == "env/target/x/inner"
    ));
}

#[test]
fn test_selection_defaults_and_subset() {
    let (source, mut target) = synced_pair();
    target.children.push(f("f3", 200));
    refresh(&mut target);
    let mut source2 = source;
    child_mut(&mut source2, "f1").entry.modified = Some(300);
    let diffs = find_differences(&source2, &target);
    assert_eq!(diffs.len(), 2);
    let problems = verify_source_fully_newer_than_target(&diffs);
    let mut selection = default_selection(&diffs, &problems);
    for (i, p) in problems.iter().enumerate() {
        assert_eq!(selection[i].1, p.is_none());
    }
    // The user approves everything.
    for entry in selection.iter_mut() {
        entry.1 = true;
    }
    let approved = approved_subset(&selection);
    assert_eq!(approved.len(), 2);
    // The user approves nothing.
    for entry in selection.iter_mut() {
        entry.1 = false;
    }
    assert!(approved_subset(&selection).is_empty());
}

#[test]
fn test_apply_converges_from_scratch() {
    let source = base_source("a/src");
    let target = root("b/tgt", vec![f("stale", 5), d("junk", vec![f("j", 7)])]);
    assert!(source.well_formed() && target.well_formed());
    let new_target = apply_all_differences(&source, &target);
    assert!(new_target.well_formed());
    assert!(find_differences(&source, &new_target).is_empty());
    assert_eq!(new_target.entry.path, "b/tgt");
}
