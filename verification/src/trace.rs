//! Validation of a whole program, given as the sequence of its operations.
//!
//! When a borrow's live region ends is a matter of the `RegionRule`. Under
//! `Lexical` a borrow lives to the end of the block it was taken in, and
//! beyond while it is still used. Under `LastUse` it lives no longer than
//! to the last operation that uses it, so that a conflicting borrow may
//! follow in the same block. The program is accepted if every operation
//! is; otherwise the verdict names the first operation that is refused.

use vstd::prelude::*;
use crate::model::{Borrow, Fault, Op, TrackerState, Violation};
use crate::tracker::Tracker;

verus! {

/// The outcome of validating a program.
#[derive(Clone, Copy, Debug, PartialEq, Eq, Structural)]
pub enum Verdict {
    /// Every operation is legal.
    Accepted,
    /// The operation at position `at` breaks the discipline: in what it
    /// does with `binding`, it conflicts with the earlier operation at
    /// position `origin`.
    Rejected { kind: Violation, at: usize, binding: usize, origin: usize },
    /// The operation at position `at` does not describe a step of a program.
    IllFormed { at: usize },
}

/// When the live region of a borrow ends.
#[derive(Clone, Copy, Debug, PartialEq, Eq, Structural)]
pub enum RegionRule {
    /// With the block that the borrow was taken in or, where the borrow is
    /// used after the end of that block, with its last use.
    Lexical,
    /// With the last operation that uses the borrow.
    LastUse,
}

/// Whether `op` uses the borrow with handle `h`.
pub open spec fn mentions(op: Op, h: int) -> bool {
    match op {
        Op::ReadThroughBorrow { handle } => handle == h,
        Op::MutateThroughBorrow { handle } => handle == h,
        _ => false,
    }
}

/// Whether the operation at position `i` or a later one uses borrow `h`.
pub open spec fn used_from(trace: Seq<Op>, h: int, i: int) -> bool {
    exists|j: int| i <= j < trace.len() && mentions(#[trigger] trace[j], h)
}

/// One more than the last position before `upto` whose operation uses
/// borrow `h`, or 0 if there is none.
pub open spec fn last_use(trace: Seq<Op>, h: int, upto: int) -> int
    decreases upto,
{
    if upto <= 0 {
        0
    } else if mentions(trace[upto - 1], h) {
        upto
    } else {
        last_use(trace, h, upto - 1)
    }
}

/// Whether the live region of borrow `h` of `s` has ended when the
/// operation at position `i` is about to run on `s`: no operation from `i`
/// on uses the borrow and, under the lexical rule, the block that it was
/// taken in has ended or ends with this very operation.
pub open spec fn ended(s: TrackerState, trace: Seq<Op>, i: int, rule: RegionRule, h: int) -> bool {
    &&& !used_from(trace, h, i)
    &&& rule == RegionRule::Lexical ==> match s.borrows[h].enclosing {
        None => true,
        Some(d) => trace[i] == Op::EndScope && d == s.scopes.len() - 1,
    }
}

/// `s` as the operation at position `i` finds it: the borrows whose live
/// regions have ended are no longer live.
pub open spec fn settled(s: TrackerState, trace: Seq<Op>, i: int, rule: RegionRule) -> TrackerState {
    TrackerState {
        borrows: Seq::new(
            s.borrows.len(),
            |h: int|
                Borrow {
                    live: s.borrows[h].live && !ended(s, trace, i, rule, h),
                    ..s.borrows[h]
                },
        ),
        ..s
    }
}

/// The state after the first `n` operations of `trace`, or the position and
/// the fault of the first one among them that is refused.
pub open spec fn run(trace: Seq<Op>, rule: RegionRule, n: nat) -> Result<TrackerState, (nat, Fault)>
    decreases n,
{
    if n == 0 {
        Ok(TrackerState::initial())
    } else {
        match run(trace, rule, (n - 1) as nat) {
            Err(e) => Err(e),
            Ok(s) => match settled(s, trace, n - 1, rule).step(trace[n - 1]) {
                Err(f) => Err(((n - 1) as nat, f)),
                Ok(t) => Ok(t),
            },
        }
    }
}

/// The verdict on `trace`.
pub open spec fn verdict(trace: Seq<Op>, rule: RegionRule) -> Verdict {
    match run(trace, rule, trace.len()) {
        Ok(_) => Verdict::Accepted,
        Err((at, Fault::IllFormed)) => Verdict::IllFormed { at: at as usize },
        Err((at, Fault::Violation { kind, binding, origin })) => Verdict::Rejected {
            kind,
            at: at as usize,
            binding,
            origin,
        },
    }
}

/// Once an operation is refused, the run stays where it stopped.
pub proof fn lemma_run_stops(trace: Seq<Op>, rule: RegionRule, m: nat, n: nat)
    requires
        m <= n,
        run(trace, rule, m) is Err,
    ensures
        run(trace, rule, n) == run(trace, rule, m),
    decreases n,
{
    if m < n {
        lemma_run_stops(trace, rule, m, (n - 1) as nat);
    }
}

/// A borrow is used from `i` on exactly if its last use lies at or after `i`.
pub proof fn lemma_last_use(trace: Seq<Op>, h: int, i: int, upto: int)
    requires
        0 <= i,
        0 <= upto <= trace.len(),
    ensures
        last_use(trace, h, upto) > i <==> exists|j: int|
            i <= j < upto && mentions(#[trigger] trace[j], h),
        0 <= last_use(trace, h, upto) <= upto,
    decreases upto,
{
    if upto > 0 {
        lemma_last_use(trace, h, i, upto - 1);
        if mentions(trace[upto - 1], h) {
            if upto > i {
                assert(i <= upto - 1 < upto && mentions(trace[upto - 1], h));
            }
        }
    }
}

/// For each handle below the length of `trace`, one more than the position
/// of the last operation that uses the borrow, or 0.
fn last_uses(trace: &Vec<Op>) -> (last: Vec<usize>)
    ensures
        last@.len() == trace@.len(),
        forall|h: int|
            0 <= h < last@.len() ==> #[trigger] last@[h] == last_use(trace@, h, trace@.len() as int),
{
    let n = trace.len();
    let mut last: Vec<usize> = Vec::new();
    let mut k: usize = 0;
    while k < n
        invariant
            k <= n,
            last@.len() == k,
            forall|h: int| 0 <= h < k ==> #[trigger] last@[h] == 0,
        decreases n - k,
    {
        last.push(0);
        k = k + 1;
    }
    let mut j: usize = 0;
    while j < n
        invariant
            j <= n,
            n == trace@.len(),
            last@.len() == n,
            forall|h: int| 0 <= h < n ==> #[trigger] last@[h] == last_use(trace@, h, j as int),
        decreases n - j,
    {
        let used = match trace[j] {
            Op::ReadThroughBorrow { handle } => Some(handle),
            Op::MutateThroughBorrow { handle } => Some(handle),
            _ => None,
        };
        match used {
            Some(handle) => {
                if handle < n {
                    last.set(handle, j + 1);
                }
            },
            None => {},
        }
        j = j + 1;
    }
    last
}

/// Ends the live regions that have ended when the operation at position
/// `i` is about to run.
fn settle(t: &mut Tracker, trace: &Vec<Op>, last: &Vec<usize>, i: usize, rule: RegionRule)
    requires
        old(t).wf(),
        i < trace@.len(),
        old(t)@.clock <= i,
        last@.len() == trace@.len(),
        forall|h: int|
            0 <= h < last@.len() ==> #[trigger] last@[h] == last_use(trace@, h, trace@.len() as int),
    ensures
        final(t).wf(),
        final(t)@ == settled(old(t)@, trace@, i as int, rule),
{
    let ghost before = t@;
    let closing = match trace[i] {
        Op::EndScope => true,
        _ => false,
    };
    let lexical = match rule {
        RegionRule::Lexical => true,
        RegionRule::LastUse => false,
    };
    let depth = t.depth();
    let m = t.borrows_taken();
    let mut h: usize = 0;
    while h < m
        invariant
            h <= m,
            m == before.borrows.len(),
            m <= i < trace@.len(),
            depth == before.scopes.len(),
            closing == (trace@[i as int] == Op::EndScope),
            lexical == (rule == RegionRule::Lexical),
            last@.len() == trace@.len(),
            forall|k: int|
                0 <= k < last@.len() ==> #[trigger] last@[k] == last_use(
                    trace@,
                    k,
                    trace@.len() as int,
                ),
            t.wf(),
            t@.bindings == before.bindings,
            t@.scopes == before.scopes,
            t@.clock == before.clock,
            t@.borrows.len() == m,
            forall|k: int|
                0 <= k < m ==> #[trigger] t@.borrows[k] == if k < h {
                    settled(before, trace@, i as int, rule).borrows[k]
                } else {
                    before.borrows[k]
                },
        decreases m - h,
    {
        proof {
            lemma_last_use(trace@, h as int, i as int, trace@.len() as int);
        }
        match t.borrow_record(h) {
            Some(b) => {
                let block_ended = match b.enclosing {
                    None => true,
                    Some(d) => closing && d + 1 == depth,
                };
                if b.live && last[h] <= i && (!lexical || block_ended) {
                    t.release(h);
                }
            },
            None => {},
        }
        h = h + 1;
    }
    assert(t@.borrows =~= settled(before, trace@, i as int, rule).borrows);
}

/// Validates a program: every operation in turn, each against the state
/// that the operations before it have left.
pub fn validate(trace: &Vec<Op>, rule: RegionRule) -> (v: Verdict)
    ensures
        v == verdict(trace@, rule),
{
    let n = trace.len();
    let last = last_uses(trace);
    let mut t = Tracker::new();
    let mut i: usize = 0;
    while i < n
        invariant
            i <= n,
            n == trace@.len(),
            last@.len() == n,
            forall|h: int|
                0 <= h < n ==> #[trigger] last@[h] == last_use(trace@, h, trace@.len() as int),
            t.wf(),
            t@.clock == i,
            run(trace@, rule, i as nat) == Ok::<TrackerState, (nat, Fault)>(t@),
        decreases n - i,
    {
        settle(&mut t, trace, &last, i, rule);
        match t.apply(trace[i]) {
            Err(f) => {
                proof {
                    lemma_run_stops(trace@, rule, (i + 1) as nat, n as nat);
                }
                return match f {
                    Fault::IllFormed => Verdict::IllFormed { at: i },
                    Fault::Violation { kind, binding, origin } => Verdict::Rejected {
                        kind,
                        at: i,
                        binding,
                        origin,
                    },
                };
            },
            Ok(_) => {},
        }
        i = i + 1;
    }
    Verdict::Accepted
}

} // verus!
