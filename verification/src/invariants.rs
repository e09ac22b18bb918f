//! Every operation keeps a well-formed state well-formed.

use vstd::prelude::*;
use crate::model::{hits, BorrowKind, Op, TrackerState};

verus! {

/// `first_live` returns the least position at or after `from` that `hits`
/// describes, and `None` where there is none.
pub proof fn lemma_first_live(s: TrackerState, lo: int, hi: int, exclusive_only: bool, from: int)
    requires
        0 <= from,
    ensures
        match s.first_live(lo, hi, exclusive_only, from) {
            Some(h) => {
                &&& from <= h < s.borrows.len()
                &&& hits(s.borrows[h], lo, hi, exclusive_only)
                &&& forall|k: int| from <= k < h ==> !hits(#[trigger] s.borrows[k], lo, hi, exclusive_only)
            },
            None => forall|k: int|
                from <= k < s.borrows.len() ==> !hits(#[trigger] s.borrows[k], lo, hi, exclusive_only),
        },
    decreases s.borrows.len() - from,
{
    if from < s.borrows.len() && !hits(s.borrows[from], lo, hi, exclusive_only) {
        lemma_first_live(s, lo, hi, exclusive_only, from + 1);
    }
}

/// A search may skip positions that `hits` does not describe.
pub proof fn lemma_first_live_skip(
    s: TrackerState,
    lo: int,
    hi: int,
    exclusive_only: bool,
    from: int,
    upto: int,
)
    requires
        0 <= from <= upto <= s.borrows.len(),
        forall|k: int| from <= k < upto ==> !hits(#[trigger] s.borrows[k], lo, hi, exclusive_only),
    ensures
        s.first_live(lo, hi, exclusive_only, from) == s.first_live(lo, hi, exclusive_only, upto),
    decreases upto - from,
{
    if from < upto {
        lemma_first_live_skip(s, lo, hi, exclusive_only, from + 1, upto);
    }
}

/// An accepted operation leaves a well-formed state well-formed.
pub proof fn lemma_step_wf(s: TrackerState, op: Op)
    requires
        s.wf(),
        s.clock < usize::MAX,
        s.step(op) is Ok,
    ensures
        s.step(op)->Ok_0.wf(),
{
    let t = s.step(op)->Ok_0;
    match op {
        Op::BeginScope => {},
        Op::EndScope => {
            lemma_first_live(s, s.innermost(), s.bindings.len() as int, false, 0);
        },
        Op::Declare { mutable } => {},
        Op::Construct { binding } => {},
        Op::Clone { src, dst } => {},
        Op::Move { src, dst } => {
            lemma_first_live(s, src as int, src + 1, false, 0);
        },
        Op::CallByValue { arg, mutable } => {
            lemma_first_live(s, arg as int, arg + 1, false, 0);
        },
        Op::Read { binding } => {},
        Op::BorrowShared { binding } => {
            lemma_first_live(s, binding as int, binding + 1, true, 0);
        },
        Op::BorrowExclusive { binding } => {
            lemma_first_live(s, binding as int, binding + 1, false, 0);
        },
        Op::ReadThroughBorrow { handle } => {},
        Op::MutateThroughBorrow { handle } => {},
    }
}

/// Ending a borrow's live region leaves a well-formed state well-formed.
pub proof fn lemma_release_wf(s: TrackerState, h: usize)
    requires
        s.wf(),
    ensures
        s.release(h).wf(),
{
}

} // verus!
