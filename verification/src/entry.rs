//! One filesystem object as observed during a scan of a directory.
//!
//! An entry records the full path (identity for I/O), the base name
//! (identity for matching between the two trees) and, for files only, the
//! last-modification time.  Directories deliberately carry no timestamp:
//! directory mtimes are not portable across filesystems.

use vstd::prelude::*;

verus! {

/// Modification times are nanoseconds since the Unix epoch.  The epoch
/// itself (zero) is the earliest representable time.
pub type Mtime = u128;

/// The mathematical value of an [`AnnotatedPath`]: both strings as
/// character sequences, and the optional modification time.
pub ghost struct EntryModel {
    pub path: Seq<char>,
    pub name: Seq<char>,
    pub modified: Option<Mtime>,
}

impl EntryModel {
    /// An entry is a directory exactly when it carries no timestamp.
    pub open spec fn is_dir(self) -> bool {
        self.modified is None
    }

    /// The timestamp of a file entry.
    pub open spec fn mtime(self) -> Mtime
        recommends
            !self.is_dir(),
    {
        self.modified->0
    }
}

/// One filesystem object, as listed while scanning its parent directory.
pub struct AnnotatedPath {
    /// Full path, used for I/O and display.
    pub path: String,
    /// Base name, the identity for matching entries across the two trees.
    pub name: String,
    /// `Some(t)` for a file modified at `t`; `None` for a directory.
    pub modified: Option<Mtime>,
}

impl View for AnnotatedPath {
    type V = EntryModel;

    open spec fn view(&self) -> EntryModel {
        EntryModel { path: self.path@, name: self.name@, modified: self.modified }
    }
}

impl DeepView for AnnotatedPath {
    type V = EntryModel;

    open spec fn deep_view(&self) -> EntryModel {
        self.view()
    }
}

impl Clone for AnnotatedPath {
    fn clone(&self) -> (res: Self)
        ensures
            res@ == self@,
    {
        AnnotatedPath {
            path: self.path.clone(),
            name: self.name.clone(),
            modified: self.modified,
        }
    }
}

impl AnnotatedPath {
    /// An entry is a directory exactly when it carries no timestamp.
    #[verifier::when_used_as_spec(spec_is_dir)]
    pub fn is_dir(&self) -> (r: bool)
        ensures
            r == self@.is_dir(),
    {
        self.modified.is_none()
    }

    pub open spec fn spec_is_dir(&self) -> bool {
        self@.is_dir()
    }

    /// The modification time of a file entry.  Directories have none, so
    /// asking for one is a caller error and is ruled out here.
    pub fn modified(&self) -> (t: Mtime)
        requires
            !self@.is_dir(),
        ensures
            t == self@.mtime(),
    {
        match self.modified {
            Some(t) => t,
            None => unreached(),
        }
    }
}

} // verus!
