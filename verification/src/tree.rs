//! In-memory snapshot of a directory tree.
//!
//! The scanner (outside this crate: it does I/O) materialises each tree as
//! an [`FsNode`]: the entry for the node itself plus the snapshots of its
//! immediate children.  Files have no children.  Well-formedness ties a
//! child's full path to its parent's path and its own name, requires names
//! within one directory to be distinct (a filesystem guarantee), and
//! forbids `/` inside a name.

use vstd::prelude::*;
use vstd::string::{StrSliceExecFns, StringExecFns};
use crate::entry::{AnnotatedPath, EntryModel};

verus! {

/// The mathematical value of an [`FsNode`]: a rose tree of entries.
#[verifier::ext_equal]
pub ghost struct TreeModel {
    pub entry: EntryModel,
    pub children: Seq<TreeModel>,
}

impl TreeModel {
    pub open spec fn is_dir(self) -> bool {
        self.entry.is_dir()
    }
}

/// A name may stand between two `/` separators of a path: it is non-empty
/// and contains no `/` itself.
pub open spec fn valid_name(name: Seq<char>) -> bool {
    &&& name.len() > 0
    &&& forall|i: int| 0 <= i < name.len() ==> name[i] != '/'
}

/// The full path of a child: its parent's path, a separator, its name.
pub open spec fn child_path(parent: Seq<char>, name: Seq<char>) -> Seq<char> {
    parent + seq!['/'] + name
}

/// Well-formedness of a snapshot: files are leaves, every child's path
/// extends its parent's, names are valid and unique within one directory,
/// and the same holds in every subtree.
pub open spec fn tree_wf(t: TreeModel) -> bool
    decreases t,
{
    &&& (t.entry.is_dir() || t.children.len() == 0)
    &&& (forall|i: int|
        0 <= i < t.children.len() ==> valid_name((#[trigger] t.children[i]).entry.name))
    &&& (forall|i: int|
        0 <= i < t.children.len() ==> (#[trigger] t.children[i]).entry.path == child_path(
            t.entry.path,
            t.children[i].entry.name,
        ))
    &&& (forall|i: int, j: int|
        0 <= i < j < t.children.len() ==> (#[trigger] t.children[i]).entry.name != (
        #[trigger] t.children[j]).entry.name)
    &&& (forall|i: int| 0 <= i < t.children.len() ==> tree_wf(#[trigger] t.children[i]))
}

/// The first child with the given name, if any.  Under [`tree_wf`] names
/// are unique, so "first" is the only one.
pub open spec fn lookup_child(cs: Seq<TreeModel>, name: Seq<char>) -> Option<TreeModel>
    decreases cs.len(),
{
    if cs.len() == 0 {
        None
    } else if cs[0].entry.name == name {
        Some(cs[0])
    } else {
        lookup_child(cs.drop_first(), name)
    }
}

/// What [`lookup_child`] returns: a child with the name when one exists,
/// `None` when no child has the name.
pub proof fn lemma_lookup_props(cs: Seq<TreeModel>, name: Seq<char>)
    ensures
        match lookup_child(cs, name) {
            Option::None => forall|i: int|
                0 <= i < cs.len() ==> (#[trigger] cs[i]).entry.name != name,
            Option::Some(c) => exists|i: int|
                0 <= i < cs.len() && #[trigger] cs[i] == c && c.entry.name == name,
        },
    decreases cs.len(),
{
    if cs.len() > 0 {
        if cs[0].entry.name == name {
            assert(cs[0] == cs[0] && cs[0].entry.name == name);
        } else {
            lemma_lookup_props(cs.drop_first(), name);
            match lookup_child(cs, name) {
                Option::None => {
                    assert forall|i: int| 0 <= i < cs.len() implies (#[trigger] cs[i]).entry.name
                        != name by {
                        if i > 0 {
                            assert(cs.drop_first()[i - 1] == cs[i]);
                        }
                    }
                },
                Option::Some(c) => {
                    let i = choose|i: int|
                        0 <= i < cs.drop_first().len() && #[trigger] cs.drop_first()[i] == c
                            && c.entry.name == name;
                    assert(cs[i + 1] == c);
                },
            }
        }
    }
}

/// When `cs[i]` is the first child with the name, the lookup returns
/// exactly `cs[i]`.
pub proof fn lemma_lookup_finds(cs: Seq<TreeModel>, name: Seq<char>, i: int)
    requires
        0 <= i < cs.len(),
        cs[i].entry.name == name,
        forall|b: int| 0 <= b < i ==> (#[trigger] cs[b]).entry.name != name,
    ensures
        lookup_child(cs, name) == Some(cs[i]),
    decreases cs.len(),
{
    if i == 0 {
    } else {
        assert(cs[0].entry.name != name);
        assert forall|b: int| 0 <= b < i - 1 implies (#[trigger] cs.drop_first()[b]).entry.name
            != name by {
            assert(cs.drop_first()[b] == cs[b + 1]);
        }
        assert(cs.drop_first()[i - 1] == cs[i]);
        lemma_lookup_finds(cs.drop_first(), name, i - 1);
    }
}

/// One node of a tree snapshot: the observed entry and, for a directory,
/// the snapshots of its immediate children.
pub struct FsNode {
    pub entry: AnnotatedPath,
    pub children: Vec<FsNode>,
}

/// The mathematical tree behind a snapshot node.
pub open spec fn node_model(n: FsNode) -> TreeModel
    decreases n,
{
    TreeModel {
        entry: n.entry@,
        children: Seq::new(
            n.children@.len(),
            |i: int|
                if 0 <= i < n.children@.len() {
                    node_model(n.children@[i])
                } else {
                    TreeModel { entry: n.entry@, children: Seq::empty() }
                },
        ),
    }
}

impl View for FsNode {
    type V = TreeModel;

    open spec fn view(&self) -> TreeModel {
        node_model(*self)
    }
}

impl DeepView for FsNode {
    type V = TreeModel;

    open spec fn deep_view(&self) -> TreeModel {
        node_model(*self)
    }
}

impl FsNode {
    /// A directory node carries no timestamp, exactly as its entry does.
    pub fn is_dir(&self) -> (r: bool)
        ensures
            r == self@.is_dir(),
    {
        self.entry.is_dir()
    }

    /// Checks [`tree_wf`] of the whole snapshot.  The scanner calls this
    /// once on each freshly built tree before handing it to the
    /// comparison.
    pub fn well_formed(&self) -> (r: bool)
        ensures
            r == tree_wf(self@),
        decreases *self,
    {
        if !self.entry.is_dir() && self.children.len() > 0 {
            return false;
        }
        let mut i: usize = 0;
        let mut ok: bool = true;
        while i < self.children.len()
            invariant
                0 <= i <= self.children.len(),
                ok == {
                    &&& (forall|k: int|
                        0 <= k < i ==> valid_name((#[trigger] self@.children[k]).entry.name))
                    &&& (forall|k: int|
                        0 <= k < i ==> (#[trigger] self@.children[k]).entry.path == child_path(
                            self@.entry.path,
                            self@.children[k].entry.name,
                        ))
                    &&& (forall|a: int, b: int|
                        0 <= a < b < i ==> (#[trigger] self@.children[a]).entry.name != (
                        #[trigger] self@.children[b]).entry.name)
                    &&& (forall|k: int| 0 <= k < i ==> tree_wf(#[trigger] self@.children[k]))
                },
            decreases self.children.len() - i,
        {
            let child = &self.children[i];
            let name_ok = name_is_valid(&child.entry.name);
            let expected = join_path(self.entry.path.as_str(), child.entry.name.as_str());
            let path_ok = strings_equal(&child.entry.path, &expected);
            let mut distinct: bool = true;
            let mut j: usize = 0;
            while j < i
                invariant
                    0 <= j <= i < self.children.len(),
                    distinct == forall|b: int|
                        0 <= b < j ==> (#[trigger] self@.children[b]).entry.name
                            != self@.children[i as int].entry.name,
                decreases i - j,
            {
                proof {
                    assert(self@.children[j as int] == node_model(self.children@[j as int]));
                    assert(self@.children[i as int] == node_model(self.children@[i as int]));
                }
                let same = strings_equal(&self.children[i].entry.name, &self.children[j].entry.name);
                if same {
                    distinct = false;
                }
                j += 1;
            }
            let this_ok: bool = if name_ok && path_ok && distinct {
                proof {
                    assert(decreases_to!(*self => self.children@[i as int]));
                }
                child.well_formed()
            } else {
                false
            };
            if !this_ok {
                ok = false;
            }
            proof {
                assert(self@.children[i as int] == node_model(self.children@[i as int]));
            }
            i += 1;
        }
        ok && (self.entry.is_dir() || self.children.len() == 0)
    }
}

impl Clone for FsNode {
    fn clone(&self) -> (res: Self)
        ensures
            res@ == self@,
        decreases *self,
    {
        let mut kids: Vec<FsNode> = Vec::new();
        let mut i: usize = 0;
        while i < self.children.len()
            invariant
                0 <= i <= self.children.len(),
                kids@.len() == i,
                forall|k: int| 0 <= k < i ==> (#[trigger] kids@[k])@ == self@.children[k],
            decreases self.children.len() - i,
        {
            proof {
                assert(decreases_to!(*self => self.children@[i as int]));
            }
            kids.push(self.children[i].clone());
            i += 1;
        }
        let res = FsNode { entry: self.entry.clone(), children: kids };
        proof {
            assert(res@.children =~= self@.children);
            assert(res@ =~= self@);
        }
        res
    }
}

/// String equality, as equality of the character sequences.
pub fn strings_equal(a: &String, b: &String) -> (r: bool)
    ensures
        r == (a@ == b@),
{
    a.eq(b)
}

/// The full path of a child entry, from its parent directory's path and
/// its own name.
pub fn join_path(dir: &str, name: &str) -> (r: String)
    ensures
        r@ == child_path(dir@, name@),
{
    let mut s = dir.to_owned();
    s.append("/");
    s.append(name);
    proof {
        reveal_strlit("/");
        assert("/"@ =~= seq!['/']);
    }
    s
}

/// Checks [`valid_name`].
pub fn name_is_valid(name: &String) -> (r: bool)
    ensures
        r == valid_name(name@),
{
    let n = name.as_str().unicode_len();
    if n == 0 {
        return false;
    }
    let mut i: usize = 0;
    while i < n
        invariant
            0 <= i <= n,
            n == name@.len(),
            forall|k: int| 0 <= k < i ==> name@[k] != '/',
        decreases n - i,
    {
        if name.as_str().get_char(i) == '/' {
            return false;
        }
        i += 1;
    }
    true
}

} // verus!
