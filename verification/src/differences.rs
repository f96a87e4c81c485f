//! One unit of divergence between the source and the target tree.
//!
//! A difference has exactly one of three shapes, never both sides empty:
//! same name on both sides with differing contents, present only in
//! source, or present only in target.  A one-sided difference whose entry
//! is a directory stands for the entire subtree rooted there: the
//! comparison never descends into a directory that exists on one side
//! only.

use vstd::prelude::*;
use vstd::string::{StrSliceExecFns, StringExecFns};
use crate::entry::{AnnotatedPath, EntryModel, Mtime};

verus! {

/// What kind of node a difference concerns.  A difference that is present
/// on both sides may pair a file with a directory of the same name: that
/// is a legitimate, explicitly handled state, reported as `Conflict`.
#[derive(Clone, Copy, PartialEq, Eq, Structural, Debug)]
pub enum NodeKind {
    File,
    Directory,
    Conflict,
}

/// The mathematical value of a [`Difference`].
#[verifier::ext_equal]
pub ghost struct DiffModel {
    pub source: Option<EntryModel>,
    pub target: Option<EntryModel>,
}

impl DiffModel {
    /// Both sides empty never occurs.
    pub open spec fn valid(self) -> bool {
        self.source is Some || self.target is Some
    }

    /// Present on both sides, contents differ.
    pub open spec fn is_both(self) -> bool {
        self.source is Some && self.target is Some
    }

    /// Present only in source: newly created there, or deleted in target.
    pub open spec fn is_source_only(self) -> bool {
        self.source is Some && self.target is None
    }

    /// Present only in target: deleted in source, or added to the backup.
    pub open spec fn is_target_only(self) -> bool {
        self.source is None && self.target is Some
    }

    /// A difference concerning two files, one on each side.
    pub open spec fn is_file_pair(self) -> bool {
        &&& self.is_both()
        &&& !self.source->0.is_dir()
        &&& !self.target->0.is_dir()
    }

    /// The kind of node this difference concerns: tri-state, so that a
    /// name observed as a file on one side and a directory on the other
    /// is an answerable question rather than a fault.
    pub open spec fn kind(self) -> NodeKind
        recommends
            self.valid(),
    {
        if self.is_both() {
            if self.source->0.is_dir() != self.target->0.is_dir() {
                NodeKind::Conflict
            } else if self.source->0.is_dir() {
                NodeKind::Directory
            } else {
                NodeKind::File
            }
        } else if self.is_source_only() {
            if self.source->0.is_dir() {
                NodeKind::Directory
            } else {
                NodeKind::File
            }
        } else {
            if self.target->0.is_dir() {
                NodeKind::Directory
            } else {
                NodeKind::File
            }
        }
    }

    /// The base name, identical on both sides whenever both are present.
    pub open spec fn file_name(self) -> Seq<char>
        recommends
            self.valid(),
    {
        if self.source is Some {
            self.source->0.name
        } else {
            self.target->0.name
        }
    }
}

/// One unit of divergence between the two trees at one path.
pub struct Difference {
    pub p_source: Option<AnnotatedPath>,
    pub p_target: Option<AnnotatedPath>,
}

impl View for Difference {
    type V = DiffModel;

    open spec fn view(&self) -> DiffModel {
        DiffModel {
            source: match self.p_source {
                Some(ref e) => Some(e@),
                None => None,
            },
            target: match self.p_target {
                Some(ref e) => Some(e@),
                None => None,
            },
        }
    }
}

impl DeepView for Difference {
    type V = DiffModel;

    open spec fn deep_view(&self) -> DiffModel {
        self.view()
    }
}

impl Clone for Difference {
    fn clone(&self) -> (res: Self)
        ensures
            res@ == self@,
    {
        Difference {
            p_source: match &self.p_source {
                Some(e) => Some(e.clone()),
                None => None,
            },
            p_target: match &self.p_target {
                Some(e) => Some(e.clone()),
                None => None,
            },
        }
    }
}

/// The one-line summary of a difference, as shown to the user.
pub open spec fn spec_describe(d: DiffModel) -> Seq<char>
    recommends
        d.valid(),
{
    if d.is_both() {
        if d.kind() == NodeKind::Conflict {
            "MODIFIED (kind conflict): CONFLICT["@ + d.file_name() + "]"@
        } else if d.source->0.mtime() > d.target->0.mtime() {
            "MODIFIED (source is newer): FILE["@ + d.file_name() + "]"@
        } else {
            "MODIFIED (backup is newer): FILE["@ + d.file_name() + "]"@
        }
    } else if d.is_source_only() {
        if d.kind() == NodeKind::Directory {
            "NEW in source (or deleted in backup): DIR["@ + d.file_name() + "]"@
        } else {
            "NEW in source (or deleted in backup): FILE["@ + d.file_name() + "]"@
        }
    } else {
        if d.kind() == NodeKind::Directory {
            "DELETED in source (or new in backup): DIR["@ + d.file_name() + "]"@
        } else {
            "DELETED in source (or new in backup): FILE["@ + d.file_name() + "]"@
        }
    }
}

/// The shorter summary used by list displays.
pub open spec fn spec_describe_short(d: DiffModel) -> Seq<char>
    recommends
        d.valid(),
{
    if d.is_both() {
        if d.kind() == NodeKind::Conflict {
            "MODIFIED (kind conflict): CONFLICT[\""@ + d.file_name() + "\"]"@
        } else if d.source->0.mtime() > d.target->0.mtime() {
            "MODIFIED (source new): FILE[\""@ + d.file_name() + "\"]"@
        } else {
            "MODIFIED (backup new): FILE[\""@ + d.file_name() + "\"]"@
        }
    } else if d.is_source_only() {
        if d.kind() == NodeKind::Directory {
            "NEW: DIR[\""@ + d.file_name() + "\"]"@
        } else {
            "NEW: FILE[\""@ + d.file_name() + "\"]"@
        }
    } else {
        if d.kind() == NodeKind::Directory {
            "DELETED: DIR[\""@ + d.file_name() + "\"]"@
        } else {
            "DELETED: FILE[\""@ + d.file_name() + "\"]"@
        }
    }
}

impl Difference {
    /// The kind of node this difference concerns.
    pub fn is_dir(&self) -> (r: NodeKind)
        requires
            self@.valid(),
        ensures
            r == self@.kind(),
    {
        match (&self.p_source, &self.p_target) {
            (Some(s), Some(t)) => {
                let sd = s.is_dir();
                let td = t.is_dir();
                if sd != td {
                    NodeKind::Conflict
                } else if sd {
                    NodeKind::Directory
                } else {
                    NodeKind::File
                }
            },
            (Some(s), None) => {
                if s.is_dir() {
                    NodeKind::Directory
                } else {
                    NodeKind::File
                }
            },
            (None, Some(t)) => {
                if t.is_dir() {
                    NodeKind::Directory
                } else {
                    NodeKind::File
                }
            },
            (None, None) => unreached(),
        }
    }

    /// The base name of the entry this difference concerns.
    pub fn file_name(&self) -> (r: &str)
        requires
            self@.valid(),
        ensures
            r@ == self@.file_name(),
    {
        match (&self.p_source, &self.p_target) {
            (Some(s), _) => s.name.as_str(),
            (None, Some(t)) => t.name.as_str(),
            (None, None) => unreached(),
        }
    }

    /// The source-side modification time of a file pair.
    pub fn ps_modified(&self) -> (t: Mtime)
        requires
            self@.source is Some,
            !self@.source->0.is_dir(),
        ensures
            t == self@.source->0.mtime(),
    {
        match &self.p_source {
            Some(s) => s.modified(),
            None => unreached(),
        }
    }

    /// The target-side modification time of a file pair.
    pub fn pt_modified(&self) -> (t: Mtime)
        requires
            self@.target is Some,
            !self@.target->0.is_dir(),
        ensures
            t == self@.target->0.mtime(),
    {
        match &self.p_target {
            Some(t) => t.modified(),
            None => unreached(),
        }
    }

    /// The full source-side path.
    pub fn ps_path(&self) -> (r: &str)
        requires
            self@.source is Some,
        ensures
            r@ == self@.source->0.path,
    {
        match &self.p_source {
            Some(s) => s.path.as_str(),
            None => unreached(),
        }
    }

    /// The full target-side path.
    pub fn pt_path(&self) -> (r: &str)
        requires
            self@.target is Some,
        ensures
            r@ == self@.target->0.path,
    {
        match &self.p_target {
            Some(t) => t.path.as_str(),
            None => unreached(),
        }
    }

    /// The one-line summary of this difference.
    pub fn describe(&self) -> (r: String)
        requires
            self@.valid(),
            self@.is_both() ==> !(self@.source->0.is_dir() && self@.target->0.is_dir()),
        ensures
            r@ == spec_describe(self@),
    {
        match (&self.p_source, &self.p_target) {
            (Some(s), Some(t)) => {
                if s.is_dir() != t.is_dir() {
                    let mut r = "MODIFIED (kind conflict): CONFLICT[".to_owned();
                    r.append(self.file_name());
                    r.append("]");
                    r
                } else if s.modified() > t.modified() {
                    let mut r = "MODIFIED (source is newer): FILE[".to_owned();
                    r.append(self.file_name());
                    r.append("]");
                    r
                } else {
                    let mut r = "MODIFIED (backup is newer): FILE[".to_owned();
                    r.append(self.file_name());
                    r.append("]");
                    r
                }
            },
            (Some(s), None) => {
                let mut r = if s.is_dir() {
                    "NEW in source (or deleted in backup): DIR[".to_owned()
                } else {
                    "NEW in source (or deleted in backup): FILE[".to_owned()
                };
                r.append(self.file_name());
                r.append("]");
                r
            },
            (None, Some(t)) => {
                let mut r = if t.is_dir() {
                    "DELETED in source (or new in backup): DIR[".to_owned()
                } else {
                    "DELETED in source (or new in backup): FILE[".to_owned()
                };
                r.append(self.file_name());
                r.append("]");
                r
            },
            (None, None) => unreached(),
        }
    }

    /// The shorter summary used by list displays.
    pub fn describe_short(&self) -> (r: String)
        requires
            self@.valid(),
            self@.is_both() ==> !(self@.source->0.is_dir() && self@.target->0.is_dir()),
        ensures
            r@ == spec_describe_short(self@),
    {
        match (&self.p_source, &self.p_target) {
            (Some(s), Some(t)) => {
                if s.is_dir() != t.is_dir() {
                    let mut r = "MODIFIED (kind conflict): CONFLICT[\"".to_owned();
                    r.append(self.file_name());
                    r.append("\"]");
                    r
                } else if s.modified() > t.modified() {
                    let mut r = "MODIFIED (source new): FILE[\"".to_owned();
                    r.append(self.file_name());
                    r.append("\"]");
                    r
                } else {
                    let mut r = "MODIFIED (backup new): FILE[\"".to_owned();
                    r.append(self.file_name());
                    r.append("\"]");
                    r
                }
            },
            (Some(s), None) => {
                let mut r = if s.is_dir() {
                    "NEW: DIR[\"".to_owned()
                } else {
                    "NEW: FILE[\"".to_owned()
                };
                r.append(self.file_name());
                r.append("\"]");
                r
            },
            (None, Some(t)) => {
                let mut r = if t.is_dir() {
                    "DELETED: DIR[\"".to_owned()
                } else {
                    "DELETED: FILE[\"".to_owned()
                };
                r.append(self.file_name());
                r.append("\"]");
                r
            },
            (None, None) => unreached(),
        }
    }

    /// The directory a difference sits in, relative to its tree's root:
    /// the full path with the root prefix and the trailing file name cut
    /// off.  `source_path_len` and `target_path_len` are the lengths, in
    /// characters, of the two root paths.
    pub fn get_directory_path(&self, source_path_len: usize, target_path_len: usize) -> (r: &str)
        requires
            self@.valid(),
            self@.source is Some ==> self@.source->0.name.len() <= self@.source->0.path.len()
                && source_path_len + self@.source->0.name.len() <= self@.source->0.path.len(),
            self@.source is None ==> self@.target->0.name.len() <= self@.target->0.path.len()
                && target_path_len + self@.target->0.name.len() <= self@.target->0.path.len(),
        ensures
            self@.source is Some ==> r@ == self@.source->0.path.subrange(
                source_path_len as int,
                self@.source->0.path.len() - self@.source->0.name.len(),
            ),
            self@.source is None ==> r@ == self@.target->0.path.subrange(
                target_path_len as int,
                self@.target->0.path.len() - self@.target->0.name.len(),
            ),
    {
        match (&self.p_source, &self.p_target) {
            (Some(s), _) => {
                let total = s.path.as_str().unicode_len();
                let nlen = s.name.as_str().unicode_len();
                s.path.as_str().substring_char(source_path_len, total - nlen)
            },
            (None, Some(t)) => {
                let total = t.path.as_str().unicode_len();
                let nlen = t.name.as_str().unicode_len();
                t.path.as_str().substring_char(target_path_len, total - nlen)
            },
            (None, None) => unreached(),
        }
    }
}

} // verus!
