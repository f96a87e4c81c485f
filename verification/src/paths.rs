//! Ancestor/descendant relations between full paths, as character
//! sequences.
//!
//! A path `p` lies under an ancestor `anc` when `p` is `anc` itself or
//! starts with `anc` followed by a `/`.  Because names between
//! separators are non-empty and free of `/` (see
//! [`crate::tree::valid_name`]), these relations behave like the
//! ancestor relation of the filesystem tree.

use vstd::prelude::*;
use crate::tree::{child_path, valid_name};

verus! {

/// `p` starts with `anc` followed by a separator: `p` names something
/// strictly inside the directory `anc`.
pub open spec fn strict_descendant(p: Seq<char>, anc: Seq<char>) -> bool {
    &&& p.len() > anc.len()
    &&& p.subrange(0, anc.len() as int) == anc
    &&& p[anc.len() as int] == '/'
}

/// `anc` is `p` itself or an ancestor of it.
pub open spec fn path_prefix(anc: Seq<char>, p: Seq<char>) -> bool {
    p == anc || strict_descendant(p, anc)
}

/// Neither path lies under the other.
pub open spec fn paths_unrelated(a: Seq<char>, b: Seq<char>) -> bool {
    !path_prefix(a, b) && !path_prefix(b, a)
}

/// A child's full path lies strictly under its parent's.
pub proof fn lemma_child_strict(p: Seq<char>, n: Seq<char>)
    ensures
        strict_descendant(child_path(p, n), p),
{
    let c = child_path(p, n);
    assert(c.subrange(0, p.len() as int) =~= p);
    assert(c[p.len() as int] == '/');
}

/// Ancestry is transitive.
pub proof fn lemma_prefix_trans(a: Seq<char>, b: Seq<char>, c: Seq<char>)
    requires
        path_prefix(a, b),
        path_prefix(b, c),
    ensures
        path_prefix(a, c),
{
    if b == a || c == b {
    } else {
        assert(strict_descendant(b, a) && strict_descendant(c, b));
        assert forall|i: int| 0 <= i < a.len() implies c[i] == a[i] by {
            assert(b.subrange(0, a.len() as int)[i] == b[i]);
            assert(c.subrange(0, b.len() as int)[i] == c[i]);
        }
        assert(c.subrange(0, a.len() as int) =~= a);
        assert(c.subrange(0, b.len() as int)[a.len() as int] == c[a.len() as int]);
        assert(c[a.len() as int] == '/');
    }
}

/// Two ancestors of one path are comparable: one of them lies under the
/// other.
pub proof fn lemma_prefix_comparable(a: Seq<char>, b: Seq<char>, x: Seq<char>)
    requires
        path_prefix(a, x),
        path_prefix(b, x),
    ensures
        path_prefix(a, b) || path_prefix(b, a),
{
    if a == x || b == x {
    } else if a.len() == b.len() {
        assert forall|i: int| 0 <= i < a.len() implies a[i] == b[i] by {
            assert(x.subrange(0, a.len() as int)[i] == x[i]);
            assert(x.subrange(0, b.len() as int)[i] == x[i]);
        }
        assert(a =~= b);
    } else if a.len() < b.len() {
        assert forall|i: int| 0 <= i < a.len() implies b[i] == a[i] by {
            assert(x.subrange(0, a.len() as int)[i] == x[i]);
            assert(x.subrange(0, b.len() as int)[i] == x[i]);
        }
        assert(b.subrange(0, a.len() as int) =~= a);
        assert(x.subrange(0, b.len() as int)[a.len() as int] == x[a.len() as int]);
        assert(b[a.len() as int] == '/');
        assert(strict_descendant(b, a));
    } else {
        assert forall|i: int| 0 <= i < b.len() implies a[i] == b[i] by {
            assert(x.subrange(0, a.len() as int)[i] == x[i]);
            assert(x.subrange(0, b.len() as int)[i] == x[i]);
        }
        assert(a.subrange(0, b.len() as int) =~= b);
        assert(x.subrange(0, a.len() as int)[b.len() as int] == x[b.len() as int]);
        assert(a[b.len() as int] == '/');
        assert(strict_descendant(a, b));
    }
}

/// Equal child paths under one parent mean equal names.
pub proof fn lemma_child_cancel(p: Seq<char>, n1: Seq<char>, n2: Seq<char>)
    requires
        child_path(p, n1) == child_path(p, n2),
    ensures
        n1 == n2,
{
    let c1 = child_path(p, n1);
    let c2 = child_path(p, n2);
    assert(c1.len() == c2.len());
    assert forall|i: int| 0 <= i < n1.len() implies n1[i] == n2[i] by {
        assert(c1[p.len() + 1 + i] == n1[i]);
        assert(c2[p.len() + 1 + i] == n2[i]);
    }
    assert(n1 =~= n2);
}

/// The path of one child never lies under the path of a differently
/// named sibling.
pub proof fn lemma_siblings_unrelated(p: Seq<char>, n1: Seq<char>, n2: Seq<char>)
    requires
        valid_name(n1),
        valid_name(n2),
        n1 != n2,
    ensures
        !path_prefix(child_path(p, n1), child_path(p, n2)),
{
    let c1 = child_path(p, n1);
    let c2 = child_path(p, n2);
    if c2 == c1 {
        lemma_child_cancel(p, n1, n2);
    } else if strict_descendant(c2, c1) {
        assert(n2.len() > n1.len());
        assert(c2[c1.len() as int] == '/');
        assert(c2[p.len() + 1 + n1.len() as int] == n2[n1.len() as int]);
        assert(n2[n1.len() as int] == '/');
        assert(false);
    }
}

} // verus!
