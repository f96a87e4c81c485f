//! The divergence verifier: flags the differences that cannot be assumed
//! safe to overwrite blindly.
//!
//! Directories carry no timestamp and files deleted from the source leave
//! no trace, so a target-only entry may be either stale (safe to delete)
//! or newly added to the backup (must be preserved).  The heuristic
//! computes a divergence watermark — the greatest source-side time among
//! file pairs that differ — and flags: file pairs whose target side is
//! newer than their source side; every target-only directory; and every
//! target-only file not older than the watermark.  The result is
//! advisory: it blocks nothing by itself.

use vstd::prelude::*;
use crate::differences::{DiffModel, Difference};
use crate::entry::Mtime;

verus! {

/// Why a difference was flagged.
#[derive(Clone, Copy, PartialEq, Eq, Structural, Debug)]
pub enum Problem {
    /// A file pair whose target side was modified after its source side:
    /// a blind overwrite would lose data.
    NewerInBackup,
    /// A directory present only in the backup: no timestamp evidence can
    /// tell a stale copy from an unexpected addition.
    DirectoryNotInSource,
    /// A file present only in the backup, touched at or after the last
    /// point of confirmed agreement between the trees.
    FileNotInSourceAndNotOld,
}

impl Problem {
    /// The description shown beside the flagged difference.
    pub open spec fn spec_description(self) -> Seq<char> {
        match self {
            Problem::NewerInBackup => "NEWER in backup directory"@,
            Problem::DirectoryNotInSource => "Directory exists in backup directory, but NOT in source directory."@,
            Problem::FileNotInSourceAndNotOld => "File exists in backup directory, but NOT in source directory and cannot be verified to be old."@,
        }
    }

    /// The description shown beside the flagged difference.
    pub fn description(&self) -> (r: String)
        ensures
            r@ == self.spec_description(),
    {
        match self {
            Problem::NewerInBackup => "NEWER in backup directory".to_owned(),
            Problem::DirectoryNotInSource => "Directory exists in backup directory, but NOT in source directory.".to_owned(),
            Problem::FileNotInSourceAndNotOld => "File exists in backup directory, but NOT in source directory and cannot be verified to be old.".to_owned(),
        }
    }
}

/// The greater of two modification times.
pub open spec fn mt_max(a: Mtime, b: Mtime) -> Mtime {
    if a > b {
        a
    } else {
        b
    }
}

/// The divergence watermark contributed by differences from position `k`
/// on: the greatest source-side time among file pairs, the epoch when
/// there is none.
pub open spec fn spec_watermark_from(ds: Seq<DiffModel>, k: int) -> Mtime
    decreases ds.len() - k,
{
    if k < 0 || k >= ds.len() {
        0
    } else {
        let rest = spec_watermark_from(ds, k + 1);
        if ds[k].is_file_pair() {
            mt_max(ds[k].source->0.mtime(), rest)
        } else {
            rest
        }
    }
}

/// The divergence watermark of a difference sequence.
pub open spec fn spec_watermark(ds: Seq<DiffModel>) -> Mtime {
    spec_watermark_from(ds, 0)
}

/// Whether one difference is flagged, given the watermark.
pub open spec fn spec_problem(d: DiffModel, wm: Mtime) -> Option<Problem> {
    if d.is_file_pair() && d.target->0.mtime() > d.source->0.mtime() {
        Some(Problem::NewerInBackup)
    } else if d.is_target_only() && d.target->0.is_dir() {
        Some(Problem::DirectoryNotInSource)
    } else if d.is_target_only() && !d.target->0.is_dir() && d.target->0.mtime() >= wm {
        Some(Problem::FileNotInSourceAndNotOld)
    } else {
        None
    }
}

/// Computes the divergence watermark of a difference sequence.
pub fn divergence_watermark(differences: &Vec<Difference>) -> (w: Mtime)
    ensures
        w == spec_watermark(differences.deep_view()),
{
    let ghost dv = differences.deep_view();
    let n = differences.len();
    let mut wm: Mtime = 0;
    let mut k: usize = 0;
    while k < n
        invariant
            0 <= k <= n,
            n == differences@.len(),
            dv == differences.deep_view(),
            mt_max(wm, spec_watermark_from(dv, k as int)) == spec_watermark(dv),
        decreases n - k,
    {
        proof {
            assert(dv[k as int] == differences@[k as int]@);
        }
        let d = &differences[k];
        match (&d.p_source, &d.p_target) {
            (Some(s), Some(t)) => {
                if !s.is_dir() && !t.is_dir() {
                    let m = s.modified();
                    if m > wm {
                        wm = m;
                    }
                }
            },
            _ => {},
        }
        k += 1;
    }
    wm
}

/// Verifies that the target holds nothing newer than its expression in
/// the source: classifies every difference, returning one optional
/// problem per input position.
pub fn verify_source_fully_newer_than_target(differences: &Vec<Difference>) -> (problems: Vec<
    Option<Problem>,
>)
    ensures
        problems@.len() == differences@.len(),
        forall|i: int|
            0 <= i < differences@.len() ==> problems@[i] == spec_problem(
                differences.deep_view()[i],
                spec_watermark(differences.deep_view()),
            ),
{
    let ghost dv = differences.deep_view();
    let wm = divergence_watermark(differences);
    let n = differences.len();
    let mut problems: Vec<Option<Problem>> = Vec::new();
    let mut i: usize = 0;
    while i < n
        invariant
            0 <= i <= n,
            n == differences@.len(),
            dv == differences.deep_view(),
            wm == spec_watermark(dv),
            problems@.len() == i,
            forall|k: int| 0 <= k < i ==> problems@[k] == spec_problem(dv[k], wm),
        decreases n - i,
    {
        proof {
            assert(dv[i as int] == differences@[i as int]@);
        }
        let d = &differences[i];
        let flag: Option<Problem> = match (&d.p_source, &d.p_target) {
            (Some(s), Some(t)) => {
                if !s.is_dir() && !t.is_dir() && t.modified() > s.modified() {
                    Some(Problem::NewerInBackup)
                } else {
                    None
                }
            },
            (None, Some(t)) => {
                if t.is_dir() {
                    Some(Problem::DirectoryNotInSource)
                } else if t.modified() >= wm {
                    Some(Problem::FileNotInSourceAndNotOld)
                } else {
                    None
                }
            },
            _ => None,
        };
        problems.push(flag);
        i += 1;
    }
    problems
}

/// Monotonic safety: a source-only difference is never flagged as a
/// problem, whatever the watermark — it always represents safe forward
/// propagation from source to target.
pub proof fn lemma_source_only_never_problem(d: DiffModel, wm: Mtime)
    requires
        d.is_source_only(),
    ensures
        spec_problem(d, wm) is None,
{
}

/// Watermark correctness: when no file-pair difference exists, the
/// divergence watermark is the epoch — the earliest representable time —
/// and therefore every target-only file is flagged as a problem.
pub proof fn lemma_watermark_epoch(ds: Seq<DiffModel>)
    requires
        forall|i: int| 0 <= i < ds.len() ==> !(#[trigger] ds[i]).is_file_pair(),
    ensures
        spec_watermark(ds) == 0,
        forall|i: int|
            0 <= i < ds.len() && (#[trigger] ds[i]).is_target_only() && !ds[i].target->0.is_dir()
                ==> spec_problem(ds[i], spec_watermark(ds)) is Some,
{
    lemma_watermark_from_epoch(ds, 0);
}

proof fn lemma_watermark_from_epoch(ds: Seq<DiffModel>, k: int)
    requires
        forall|i: int| 0 <= i < ds.len() ==> !(#[trigger] ds[i]).is_file_pair(),
    ensures
        spec_watermark_from(ds, k) == 0,
    decreases ds.len() - k,
{
    if 0 <= k < ds.len() {
        lemma_watermark_from_epoch(ds, k + 1);
    }
}

} // verus!
