//! What the discipline guarantees, proved of the model.

use vstd::prelude::*;
use crate::invariants::{lemma_first_live, lemma_step_wf};
use crate::model::{
    counted, live_count, owned_in, Binding, BindingState, Borrow, BorrowKind, Fault, Op,
    TrackerState, Violation,
};
use crate::trace::{
    lemma_run_stops, mentions, run, settled, used_from, verdict, RegionRule, Verdict,
};

verus! {

/// Whether `op` takes the resource of binding `b` away from it.
pub open spec fn moves_out(op: Op, b: usize) -> bool {
    match op {
        Op::Move { src, .. } => src == b,
        Op::CallByValue { arg, .. } => arg == b,
        _ => false,
    }
}

/// Whether `op` reads binding `b`: through the owner, to clone or move its
/// resource, or to borrow it.
pub open spec fn reads(op: Op, b: usize) -> bool {
    match op {
        Op::Read { binding } => binding == b,
        Op::Clone { src, .. } => src == b,
        Op::Move { src, .. } => src == b,
        Op::CallByValue { arg, .. } => arg == b,
        Op::BorrowShared { binding } => binding == b,
        Op::BorrowExclusive { binding } => binding == b,
        _ => false,
    }
}

/// Every state that a run reaches is well-formed, its clock is the number
/// of operations run, and a borrow that an operation still to come uses is
/// live.
pub proof fn law_reachable(trace: Seq<Op>, rule: RegionRule, n: nat)
    requires
        n <= trace.len() <= usize::MAX,
        run(trace, rule, n) is Ok,
    ensures
        run(trace, rule, n)->Ok_0.wf(),
        run(trace, rule, n)->Ok_0.clock == n,
        forall|h: int|
            0 <= h < run(trace, rule, n)->Ok_0.borrows.len() && used_from(trace, h, n as int)
                ==> (#[trigger] run(trace, rule, n)->Ok_0.borrows[h]).live,
    decreases n,
{
    if n > 0 {
        let m = (n - 1) as nat;
        law_reachable(trace, rule, m);
        let s = run(trace, rule, m)->Ok_0;
        let u = settled(s, trace, m as int, rule);
        lemma_settled_wf(s, trace, m as int, rule);
        lemma_step_wf(u, trace[m as int]);
        let t = run(trace, rule, n)->Ok_0;
        law_borrows_stay(u, trace[m as int]);
        assert forall|h: int|
            0 <= h < t.borrows.len() && used_from(trace, h, n as int) implies (#[trigger] t.borrows[h]).live by {
            let j = choose|j: int| n <= j < trace.len() && mentions(#[trigger] trace[j], h);
            assert(m <= j < trace.len() && mentions(trace[j], h));
        }
    }
}

/// Ending the live regions of borrows leaves a well-formed state
/// well-formed.
proof fn lemma_settled_wf(s: TrackerState, trace: Seq<Op>, i: int, rule: RegionRule)
    requires
        s.wf(),
    ensures
        settled(s, trace, i, rule).wf(),
{
}

/// No operation ends or resumes the live region of a borrow that was taken
/// before it, nor changes what the borrow refers to. A borrow that the
/// operation takes is live.
pub proof fn law_borrows_stay(s: TrackerState, op: Op)
    requires
        s.step(op) is Ok,
    ensures
        s.borrows.len() <= s.step(op)->Ok_0.borrows.len() <= s.borrows.len() + 1,
        forall|h: int|
            0 <= h < s.borrows.len() ==> (#[trigger] s.step(op)->Ok_0.borrows[h]) == (Borrow {
                enclosing: s.step(op)->Ok_0.borrows[h].enclosing,
                ..s.borrows[h]
            }),
        s.step(op)->Ok_0.borrows.len() > s.borrows.len() ==> s.step(op)->Ok_0.borrows.last().live,
{
}

/// A binding that was moved out of is refused to every operation that
/// reads it, with `UseAfterMove` and the position of the move.
pub proof fn law_moved_out_refuses(s: TrackerState, op: Op, b: usize)
    requires
        b < s.bindings.len(),
        s.bindings[b as int].state is MovedOut,
        reads(op, b),
    ensures
        s.step(op) == Err::<TrackerState, Fault>(
            Fault::Violation {
                kind: Violation::UseAfterMove,
                binding: b,
                origin: s.bindings[b as int].since,
            },
        ),
{
}

/// A binding that was moved out of stays so, whatever is accepted later.
pub proof fn law_moved_out_stays(s: TrackerState, op: Op, b: usize)
    requires
        b < s.bindings.len(),
        s.bindings[b as int].state is MovedOut,
        s.step(op) is Ok,
    ensures
        b < s.step(op)->Ok_0.bindings.len(),
        s.step(op)->Ok_0.bindings[b as int] == s.bindings[b as int],
{
}

/// After an accepted move out of a binding, every later operation that
/// reads the binding or moves out of it again is rejected with
/// `UseAfterMove`, and the verdict points back at the move.
pub proof fn law_use_after_move(trace: Seq<Op>, rule: RegionRule, i: nat, j: nat, b: usize)
    requires
        i < j < trace.len() <= usize::MAX,
        moves_out(trace[i as int], b),
        reads(trace[j as int], b),
        run(trace, rule, j) is Ok,
    ensures
        verdict(trace, rule) == (Verdict::Rejected {
            kind: Violation::UseAfterMove,
            at: j as usize,
            binding: b,
            origin: i as usize,
        }),
{
    lemma_moved_out_since(trace, rule, i, j, b);
    let s = run(trace, rule, j)->Ok_0;
    let u = settled(s, trace, j as int, rule);
    law_moved_out_refuses(u, trace[j as int], b);
    assert(run(trace, rule, j + 1) is Err);
    lemma_run_stops(trace, rule, j + 1, trace.len());
}

/// Between an accepted move out of `b` at position `i` and position `k`,
/// `b` is moved out, and has been since `i`.
proof fn lemma_moved_out_since(trace: Seq<Op>, rule: RegionRule, i: nat, k: nat, b: usize)
    requires
        i < k <= trace.len() <= usize::MAX,
        moves_out(trace[i as int], b),
        run(trace, rule, k) is Ok,
    ensures
        b < run(trace, rule, k)->Ok_0.bindings.len(),
        run(trace, rule, k)->Ok_0.bindings[b as int].state is MovedOut,
        run(trace, rule, k)->Ok_0.bindings[b as int].since == i,
    decreases k,
{
    let m = (k - 1) as nat;
    let s = run(trace, rule, m)->Ok_0;
    let u = settled(s, trace, m as int, rule);
    if m == i {
        law_reachable(trace, rule, m);
    } else {
        lemma_moved_out_since(trace, rule, i, m, b);
        law_moved_out_stays(u, trace[m as int], b);
    }
}

/// If no two borrows at different positions are both counted, at most one
/// is.
proof fn lemma_count_at_most_one(borrows: Seq<Borrow>, resource: usize, kind: BorrowKind)
    requires
        forall|h: int, k: int|
            0 <= h < k < borrows.len() ==> !(counted(#[trigger] borrows[h], resource, kind)
                && counted(#[trigger] borrows[k], resource, kind)),
    ensures
        live_count(borrows, resource, kind) <= 1,
    decreases borrows.len(),
{
    if borrows.len() > 0 {
        let rest = borrows.drop_last();
        lemma_count_at_most_one(rest, resource, kind);
        lemma_count_witness(rest, resource, kind);
    }
}

/// The count is positive exactly if some borrow is counted.
proof fn lemma_count_witness(borrows: Seq<Borrow>, resource: usize, kind: BorrowKind)
    ensures
        live_count(borrows, resource, kind) > 0 <==> exists|h: int|
            0 <= h < borrows.len() && counted(#[trigger] borrows[h], resource, kind),
    decreases borrows.len(),
{
    if borrows.len() > 0 {
        let rest = borrows.drop_last();
        lemma_count_witness(rest, resource, kind);
        if live_count(rest, resource, kind) > 0 {
            let h = choose|h: int| 0 <= h < rest.len() && counted(#[trigger] rest[h], resource, kind);
            assert(counted(borrows[h], resource, kind));
        }
        if counted(borrows.last(), resource, kind) {
            assert(counted(borrows[borrows.len() - 1], resource, kind));
        }
        if exists|h: int| 0 <= h < borrows.len() && counted(#[trigger] borrows[h], resource, kind) {
            let h = choose|h: int|
                0 <= h < borrows.len() && counted(#[trigger] borrows[h], resource, kind);
            if h < rest.len() {
                assert(counted(rest[h], resource, kind));
            }
        }
    }
}

/// In a well-formed state a resource has no or one live exclusive borrow,
/// and with one, no live shared borrow.
pub proof fn law_shared_xor_exclusive(s: TrackerState, resource: usize)
    requires
        s.wf(),
    ensures
        live_count(s.borrows, resource, BorrowKind::Exclusive) <= 1,
        live_count(s.borrows, resource, BorrowKind::Exclusive) == 1 ==> live_count(
            s.borrows,
            resource,
            BorrowKind::Shared,
        ) == 0,
{
    assert forall|h: int, k: int|
        0 <= h < s.borrows.len() && 0 <= k < s.borrows.len() && h != k && (#[trigger] s.borrows[h]).live
            && (#[trigger] s.borrows[k]).live && s.borrows[h].resource
            == s.borrows[k].resource implies s.borrows[h].kind == BorrowKind::Shared
        && s.borrows[k].kind == BorrowKind::Shared by {
        // both referents own the one resource, so they are one binding
        assert(s.anchored(s.borrows[h]) && s.anchored(s.borrows[k]));
        assert(s.bindings[s.borrows[h].referent as int].state is Owns);
    }
    lemma_count_at_most_one(s.borrows, resource, BorrowKind::Exclusive);
    lemma_count_witness(s.borrows, resource, BorrowKind::Exclusive);
    lemma_count_witness(s.borrows, resource, BorrowKind::Shared);
}

/// Cloning leaves the binding cloned from as it was: it owns the same
/// resource, its borrows are what they were, and whatever could be done
/// with it before can be done after.
pub proof fn law_clone_keeps_source(s: TrackerState, src: usize, dst: usize)
    requires
        s.clone_to(src, dst) is Ok,
    ensures
        ({
            let t = s.clone_to(src, dst)->Ok_0;
            &&& t.bindings[src as int] == s.bindings[src as int]
            &&& t.bindings[src as int].state is Owns
            &&& t.borrows == s.borrows
            &&& t.source(src) == s.source(src)
            &&& t.takeable(src) == s.takeable(src)
            &&& t.read(src) is Ok <==> s.read(src) is Ok
            &&& forall|kind: BorrowKind| t.borrow(src, kind) is Ok <==> s.borrow(src, kind) is Ok
        }),
{
    let t = s.clone_to(src, dst)->Ok_0;
    lemma_first_live_same(s, t, src as int, src + 1, false, 0);
    lemma_first_live_same(s, t, src as int, src + 1, true, 0);
}

/// A search depends on the borrows alone.
proof fn lemma_first_live_same(
    s: TrackerState,
    t: TrackerState,
    lo: int,
    hi: int,
    exclusive_only: bool,
    from: int,
)
    requires
        s.borrows == t.borrows,
    ensures
        s.first_live(lo, hi, exclusive_only, from) == t.first_live(lo, hi, exclusive_only, from),
    decreases s.borrows.len() - from,
{
    if 0 <= from < s.borrows.len() {
        lemma_first_live_same(s, t, lo, hi, exclusive_only, from + 1);
    }
}

/// Where the end of a scope is accepted, no borrow of a binding of that
/// scope is live.
pub proof fn law_scope_end_finds_no_borrow(s: TrackerState)
    requires
        s.wf(),
        s.end_scope() is Ok,
    ensures
        forall|h: int|
            0 <= h < s.borrows.len() && s.innermost() <= (#[trigger] s.borrows[h]).referent ==> !s.borrows[h].live,
{
    lemma_first_live(s, s.innermost(), s.bindings.len() as int, false, 0);
}

/// A borrow's live region ends before the scope of its referent does: if
/// the end of a scope at position `e` is accepted, a borrow of a binding of
/// that scope is used by no operation at or after `e`, and is live in no
/// state from then on.
pub proof fn law_region_ends_before_scope(trace: Seq<Op>, rule: RegionRule, e: nat, h: int, n: nat)
    requires
        e < n <= trace.len() <= usize::MAX,
        trace[e as int] == Op::EndScope,
        run(trace, rule, n) is Ok,
        run(trace, rule, e) is Ok,
        0 <= h < run(trace, rule, e)->Ok_0.borrows.len(),
        run(trace, rule, e)->Ok_0.innermost() <= run(trace, rule, e)->Ok_0.borrows[h].referent,
    ensures
        !used_from(trace, h, e as int),
        h < run(trace, rule, n)->Ok_0.borrows.len(),
        !run(trace, rule, n)->Ok_0.borrows[h].live,
    decreases n,
{
    let m = (n - 1) as nat;
    let s = run(trace, rule, m)->Ok_0;
    let u = settled(s, trace, m as int, rule);
    law_borrows_stay(u, trace[m as int]);
    if m == e {
        law_reachable(trace, rule, e);
        lemma_settled_wf(s, trace, e as int, rule);
        law_scope_end_finds_no_borrow(u);
        assert(!u.borrows[h].live);
    } else {
        law_region_ends_before_scope(trace, rule, e, h, m);
    }
}

/// A value passed by value and handed back keeps its identity: after the
/// call, the move of the parameter to a binding of the caller and the end
/// of the callee's scope, that binding owns the very resource that the
/// argument owned, and the resource was not destroyed on the way.
pub proof fn law_round_trip(s: TrackerState, arg: usize, mutable: bool, dst: usize)
    requires
        s.wf(),
        s.call_by_value(arg, mutable) is Ok,
        s.target(dst) is Ok,
    ensures
        ({
            let parameter = s.bindings.len() as usize;
            let called = s.call_by_value(arg, mutable)->Ok_0;
            let returned = called.move_to(parameter, dst);
            &&& returned is Ok
            &&& returned->Ok_0.end_scope() is Ok
            &&& returned->Ok_0.destroyed() == Seq::<usize>::empty()
            &&& returned->Ok_0.end_scope()->Ok_0.bindings[dst as int].state
                == s.bindings[arg as int].state
            &&& s.bindings[arg as int].state is Owns
            &&& returned->Ok_0.end_scope()->Ok_0.bindings[arg as int].state is MovedOut
            &&& returned->Ok_0.end_scope()->Ok_0.scopes == s.scopes
        }),
{
    let parameter = s.bindings.len() as usize;
    let called = s.call_by_value(arg, mutable)->Ok_0;
    lemma_first_live(s, arg as int, arg + 1, false, 0);
    lemma_none_live(called, parameter as int, parameter + 1);
    let returned = called.move_to(parameter, dst)->Ok_0;
    lemma_none_live(returned, parameter as int, returned.bindings.len() as int);
    assert(returned.scopes.drop_last() =~= s.scopes);
    assert(owned_in(returned.bindings, parameter as int, parameter as int) =~= Seq::<usize>::empty());
}

/// No borrow refers to a binding in `lo..hi` if all referents lie below
/// `lo`.
proof fn lemma_none_live(s: TrackerState, lo: int, hi: int)
    requires
        forall|h: int| 0 <= h < s.borrows.len() ==> (#[trigger] s.borrows[h]).referent < lo,
    ensures
        s.first_live(lo, hi, false, 0) is None,
{
    lemma_first_live(s, lo, hi, false, 0);
}

/// In a well-formed state a resource has at most one owning binding.
pub proof fn law_one_owner(s: TrackerState, resource: usize, i: int, j: int)
    requires
        s.wf(),
        0 <= i < s.bindings.len(),
        0 <= j < s.bindings.len(),
        s.bindings[i].state == (BindingState::Owns { resource }),
        s.bindings[j].state == (BindingState::Owns { resource }),
    ensures
        i == j,
{
}

/// A resource that is constructed or cloned is new: no binding owns it
/// before, and no borrow is of it.
pub proof fn law_new_resource_is_new(s: TrackerState, b: usize)
    requires
        s.wf(),
        s.construct(b) is Ok,
    ensures
        s.construct(b)->Ok_0.bindings[b as int].state == (BindingState::Owns {
            resource: s.clock as usize,
        }),
        forall|i: int|
            0 <= i < s.bindings.len() ==> (#[trigger] s.bindings[i]).state != (BindingState::Owns {
                resource: s.clock as usize,
            }),
        forall|h: int|
            0 <= h < s.borrows.len() && (#[trigger] s.borrows[h]).live ==> s.borrows[h].resource
                != s.clock,
{
    assert forall|h: int| 0 <= h < s.borrows.len() && (#[trigger] s.borrows[h]).live implies s.borrows[h].resource
        != s.clock by {
        assert(s.anchored(s.borrows[h]));
        assert(s.bindings[s.borrows[h].referent as int].state is Owns);
    }
}

/// A resource that the end of a scope destroys has no owner afterwards.
pub proof fn law_destroyed_has_no_owner(s: TrackerState, k: int, b: int)
    requires
        s.wf(),
        s.end_scope() is Ok,
        0 <= k < s.destroyed().len(),
        0 <= b < s.bindings.len(),
    ensures
        s.end_scope()->Ok_0.bindings[b].state != (BindingState::Owns { resource: s.destroyed()[k] }),
{
    lemma_owned_in(s.bindings, s.innermost(), s.bindings.len() as int, k);
}

/// Each resource that `owned_in` lists is owned by a binding in `lo..hi`.
proof fn lemma_owned_in(bindings: Seq<Binding>, lo: int, hi: int, k: int)
    requires
        0 <= lo,
        hi <= bindings.len(),
        0 <= k < owned_in(bindings, lo, hi).len(),
    ensures
        exists|i: int|
            lo <= i < hi && (#[trigger] bindings[i]).state == (BindingState::Owns {
                resource: owned_in(bindings, lo, hi)[k],
            }),
    decreases hi - lo,
{
    if hi > lo {
        let rest = owned_in(bindings, lo, hi - 1);
        if k < rest.len() {
            lemma_owned_in(bindings, lo, hi - 1, k);
            let i = choose|i: int|
                lo <= i < hi - 1 && (#[trigger] bindings[i]).state == (BindingState::Owns {
                    resource: rest[k],
                });
            assert(lo <= i < hi && bindings[i].state == (BindingState::Owns { resource: rest[k] }));
        } else {
            assert(bindings[hi - 1].state is Owns);
        }
    }
}

/// Where a program is rejected, the operation that the verdict points
/// back at precedes the one that it rejects.
pub proof fn law_origin_precedes(trace: Seq<Op>, rule: RegionRule)
    requires
        trace.len() <= usize::MAX,
    ensures
        match verdict(trace, rule) {
            Verdict::Accepted => true,
            Verdict::Rejected { at, origin, .. } => origin < at < trace.len(),
            Verdict::IllFormed { at } => at < trace.len(),
        },
{
    if run(trace, rule, trace.len()) is Err {
        lemma_first_refusal(trace, rule, trace.len());
    }
}

/// A run that has stopped stopped at an operation that the state before it
/// refuses, and the fault points back at an earlier operation.
proof fn lemma_first_refusal(trace: Seq<Op>, rule: RegionRule, n: nat)
    requires
        n <= trace.len() <= usize::MAX,
        run(trace, rule, n) is Err,
    ensures
        run(trace, rule, n)->Err_0.0 < n,
        run(trace, rule, n)->Err_0.1 matches Fault::Violation { origin, .. } ==> origin < run(
            trace,
            rule,
            n,
        )->Err_0.0,
    decreases n,
{
    let m = (n - 1) as nat;
    if run(trace, rule, m) is Err {
        lemma_first_refusal(trace, rule, m);
    } else {
        law_reachable(trace, rule, m);
        let s = run(trace, rule, m)->Ok_0;
        let u = settled(s, trace, m as int, rule);
        lemma_settled_wf(s, trace, m as int, rule);
        law_fault_is_grounded(u, trace[m as int]);
    }
}

/// Whether `op` deals with binding `b` of `s`: names it, or ends its scope.
pub open spec fn concerns(s: TrackerState, op: Op, b: usize) -> bool {
    match op {
        Op::EndScope => s.innermost() <= b,
        Op::Construct { binding } => b == binding,
        Op::Clone { src, dst } => b == src || b == dst,
        Op::Move { src, dst } => b == src || b == dst,
        Op::CallByValue { arg, .. } => b == arg,
        Op::Read { binding } => b == binding,
        Op::BorrowShared { binding } => b == binding,
        Op::BorrowExclusive { binding } => b == binding,
        _ => false,
    }
}

/// The fault with which a well-formed state refuses an operation names a
/// binding that was declared and that the operation deals with, and points
/// back at an operation before the clock.
pub proof fn law_fault_is_grounded(s: TrackerState, op: Op)
    requires
        s.wf(),
    ensures
        s.step(op) matches Err(Fault::Violation { binding, origin, .. }) ==> origin < s.clock
            && binding < s.bindings.len() && concerns(s, op, binding),
{
    match op {
        Op::EndScope => {
            lemma_first_live(s, s.innermost(), s.bindings.len() as int, false, 0);
        },
        Op::Move { src, dst } => {
            lemma_first_live(s, src as int, src + 1, false, 0);
        },
        Op::CallByValue { arg, mutable } => {
            lemma_first_live(s, arg as int, arg + 1, false, 0);
        },
        Op::Read { binding } => {
            lemma_first_live(s, binding as int, binding + 1, true, 0);
        },
        Op::BorrowShared { binding } => {
            lemma_first_live(s, binding as int, binding + 1, true, 0);
        },
        Op::BorrowExclusive { binding } => {
            lemma_first_live(s, binding as int, binding + 1, false, 0);
        },
        _ => {},
    }
}

/// `b` is `a` with the live regions of some borrows ended.
pub open spec fn fewer_live(a: TrackerState, b: TrackerState) -> bool {
    &&& b.bindings == a.bindings
    &&& b.scopes == a.scopes
    &&& b.clock == a.clock
    &&& b.borrows.len() == a.borrows.len()
    &&& forall|h: int|
        0 <= h < a.borrows.len() ==> (#[trigger] b.borrows[h]) == (Borrow {
            live: b.borrows[h].live,
            ..a.borrows[h]
        }) && (b.borrows[h].live ==> a.borrows[h].live)
}

/// An operation that is accepted is accepted as well where fewer borrows
/// are live, unless it uses a borrow that is not.
pub proof fn law_fewer_borrows_refuse_less(a: TrackerState, b: TrackerState, op: Op)
    requires
        fewer_live(a, b),
        a.step(op) is Ok,
        forall|h: int| 0 <= h < b.borrows.len() && mentions(op, h) ==> b.borrows[h].live,
    ensures
        b.step(op) is Ok,
        fewer_live(a.step(op)->Ok_0, b.step(op)->Ok_0),
{
    match op {
        Op::EndScope => {
            lemma_first_live(a, a.innermost(), a.bindings.len() as int, false, 0);
            lemma_first_live(b, b.innermost(), b.bindings.len() as int, false, 0);
            assert(a.dropped() =~= b.dropped());
            assert(a.scopes.drop_last() =~= b.scopes.drop_last());
        },
        Op::Move { src, dst } => {
            lemma_first_live(a, src as int, src + 1, false, 0);
            lemma_first_live(b, src as int, src + 1, false, 0);
        },
        Op::CallByValue { arg, mutable } => {
            lemma_first_live(a, arg as int, arg + 1, false, 0);
            lemma_first_live(b, arg as int, arg + 1, false, 0);
        },
        Op::Read { binding } => {
            lemma_first_live(a, binding as int, binding + 1, true, 0);
            lemma_first_live(b, binding as int, binding + 1, true, 0);
        },
        Op::BorrowShared { binding } => {
            lemma_first_live(a, binding as int, binding + 1, true, 0);
            lemma_first_live(b, binding as int, binding + 1, true, 0);
        },
        Op::BorrowExclusive { binding } => {
            lemma_first_live(a, binding as int, binding + 1, false, 0);
            lemma_first_live(b, binding as int, binding + 1, false, 0);
        },
        Op::ReadThroughBorrow { handle } => {
            assert(mentions(op, handle as int));
        },
        Op::MutateThroughBorrow { handle } => {
            assert(mentions(op, handle as int));
        },
        _ => {},
    }
}

/// The lexical rule is the stricter one: as far as a program runs under
/// it, it runs under the last-use rule, through the same states but for
/// the borrows, fewer of which are live.
pub proof fn law_lexical_is_stricter(trace: Seq<Op>, n: nat)
    requires
        n <= trace.len() <= usize::MAX,
        run(trace, RegionRule::Lexical, n) is Ok,
    ensures
        run(trace, RegionRule::LastUse, n) is Ok,
        fewer_live(
            run(trace, RegionRule::Lexical, n)->Ok_0,
            run(trace, RegionRule::LastUse, n)->Ok_0,
        ),
    decreases n,
{
    if n > 0 {
        let m = (n - 1) as nat;
        law_lexical_is_stricter(trace, m);
        law_reachable(trace, RegionRule::LastUse, m);
        let a = run(trace, RegionRule::Lexical, m)->Ok_0;
        let b = run(trace, RegionRule::LastUse, m)->Ok_0;
        let op = trace[m as int];
        assert forall|h: int| 0 <= h < b.borrows.len() && mentions(op, h) implies settled(
            b,
            trace,
            m as int,
            RegionRule::LastUse,
        ).borrows[h].live by {
            assert(m <= m < trace.len() && mentions(trace[m as int], h));
        }
        law_fewer_borrows_refuse_less(
            settled(a, trace, m as int, RegionRule::Lexical),
            settled(b, trace, m as int, RegionRule::LastUse),
            op,
        );
    }
}

/// A program that the lexical rule accepts is accepted by the last-use
/// rule.
pub proof fn law_last_use_accepts_more(trace: Seq<Op>)
    requires
        trace.len() <= usize::MAX,
        verdict(trace, RegionRule::Lexical) == Verdict::Accepted,
    ensures
        verdict(trace, RegionRule::LastUse) == Verdict::Accepted,
{
    law_lexical_is_stricter(trace, trace.len());
}

/// Under the lexical rule a borrow is live as long as the block that it
/// was taken in is open.
pub proof fn law_lexical_region(trace: Seq<Op>, n: nat, h: int)
    requires
        n <= trace.len() <= usize::MAX,
        run(trace, RegionRule::Lexical, n) is Ok,
        0 <= h < run(trace, RegionRule::Lexical, n)->Ok_0.borrows.len(),
        run(trace, RegionRule::Lexical, n)->Ok_0.borrows[h].enclosing is Some,
    ensures
        run(trace, RegionRule::Lexical, n)->Ok_0.borrows[h].live,
    decreases n,
{
    if n > 0 {
        let m = (n - 1) as nat;
        let s = run(trace, RegionRule::Lexical, m)->Ok_0;
        let u = settled(s, trace, m as int, RegionRule::Lexical);
        law_borrows_stay(u, trace[m as int]);
        if h < s.borrows.len() {
            lemma_enclosing_stays(u, trace[m as int], h);
            law_lexical_region(trace, m, h);
        }
    }
}

/// An operation leaves the block of an earlier borrow as it is, but the
/// end of that block, which takes it away.
proof fn lemma_enclosing_stays(s: TrackerState, op: Op, h: int)
    requires
        s.step(op) is Ok,
        0 <= h < s.borrows.len(),
    ensures
        s.step(op)->Ok_0.borrows[h].enclosing == if op == Op::EndScope && s.borrows[h].enclosing
            == s.innermost_scope() {
            None
        } else {
            s.borrows[h].enclosing
        },
{
}

/// Under the last-use rule the borrows that an operation finds live are
/// those that it or a later operation uses.
pub proof fn law_last_use_region(trace: Seq<Op>, n: nat, h: int)
    requires
        n <= trace.len() <= usize::MAX,
        run(trace, RegionRule::LastUse, n) is Ok,
        0 <= h < run(trace, RegionRule::LastUse, n)->Ok_0.borrows.len(),
    ensures
        settled(
            run(trace, RegionRule::LastUse, n)->Ok_0,
            trace,
            n as int,
            RegionRule::LastUse,
        ).borrows[h].live == used_from(trace, h, n as int),
{
    law_reachable(trace, RegionRule::LastUse, n);
}

} // verus!
