//! Selection of differences for application.
//!
//! Front-ends hold a list of (difference, approved) pairs: every
//! difference starts out approved unless the verifier flagged it, the
//! user may toggle entries, and only the approved subset is handed to
//! the applier.  Both steps are pure list manipulations and live here.

use vstd::prelude::*;
use crate::differences::{DiffModel, Difference};
use crate::verify::Problem;

verus! {

/// Pairs every difference with its default approval: approved exactly
/// when the verifier found no problem with it.
pub fn default_selection(diffs: &Vec<Difference>, problems: &Vec<Option<Problem>>) -> (r: Vec<
    (Difference, bool),
>)
    requires
        problems@.len() == diffs@.len(),
    ensures
        r@.len() == diffs@.len(),
        forall|i: int|
            0 <= i < r@.len() ==> (#[trigger] r@[i]).0@ == diffs@[i]@ && r@[i].1 == (problems@[i]
                is None),
{
    let n = diffs.len();
    let mut r: Vec<(Difference, bool)> = Vec::new();
    let mut i: usize = 0;
    while i < n
        invariant
            0 <= i <= n,
            n == diffs@.len(),
            n == problems@.len(),
            r@.len() == i,
            forall|b: int|
                0 <= b < i ==> (#[trigger] r@[b]).0@ == diffs@[b]@ && r@[b].1 == (problems@[b]
                    is None),
        decreases n - i,
    {
        let approved = problems[i].is_none();
        r.push((diffs[i].clone(), approved));
        i += 1;
    }
    r
}

/// The differences of the approved entries from position `k` on, in
/// their original order.
pub open spec fn spec_approved_from(s: Seq<(Difference, bool)>, k: int) -> Seq<DiffModel>
    decreases s.len() - k,
{
    if k < 0 || k >= s.len() {
        Seq::empty()
    } else {
        (if s[k].1 {
            seq![s[k].0@]
        } else {
            Seq::<DiffModel>::empty()
        }) + spec_approved_from(s, k + 1)
    }
}

/// The approved subset of a selection, in order.
pub fn approved_subset(selected: &Vec<(Difference, bool)>) -> (r: Vec<Difference>)
    ensures
        r.deep_view() == spec_approved_from(selected@, 0),
{
    let n = selected.len();
    let mut r: Vec<Difference> = Vec::new();
    proof {
        assert(r.deep_view() =~= Seq::<DiffModel>::empty());
    }
    let mut i: usize = 0;
    while i < n
        invariant
            0 <= i <= n,
            n == selected@.len(),
            r.deep_view() + spec_approved_from(selected@, i as int) =~= spec_approved_from(
                selected@,
                0,
            ),
        decreases n - i,
    {
        let ghost pre = r.deep_view();
        if selected[i].1 {
            let d = selected[i].0.clone();
            let ghost dv = d@;
            r.push(d);
            proof {
                assert(r.deep_view() =~= pre + seq![dv]);
            }
        }
        proof {
            assert(r.deep_view() + spec_approved_from(selected@, i + 1) =~= pre
                + spec_approved_from(selected@, i as int));
        }
        i += 1;
    }
    proof {
        assert(spec_approved_from(selected@, n as int) =~= Seq::<DiffModel>::empty());
        assert(r.deep_view() =~= r.deep_view() + spec_approved_from(selected@, n as int));
    }
    r
}

} // verus!
