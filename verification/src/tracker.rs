//! The executable tracker: a `TrackerState` held in vectors, with one method
//! for each operation. A method that refuses its operation leaves the
//! tracker as it was.

use vstd::prelude::*;
use crate::invariants::{lemma_first_live_skip, lemma_release_wf, lemma_step_wf};
use crate::model::{
    hits, live_count, owned_in, Binding, BindingState, Borrow, BorrowKind, Fault, Op,
    TrackerState, Violation,
};

verus! {

/// Tracks, operation by operation, which binding owns which resource and
/// which borrows are live.
///
/// The tracker does not decide when the live region of a borrow ends: its
/// user says so with `release`. It numbers the operations that it accepts,
/// and takes no more of them than a `usize` can count.
pub struct Tracker {
    bindings: Vec<Binding>,
    scopes: Vec<usize>,
    borrows: Vec<Borrow>,
    clock: usize,
}

impl View for Tracker {
    type V = TrackerState;

    closed spec fn view(&self) -> TrackerState {
        TrackerState {
            bindings: self.bindings@,
            scopes: self.scopes@,
            borrows: self.borrows@,
            clock: self.clock as nat,
        }
    }
}

impl Tracker {
    /// The tracker's state satisfies the invariants of the model.
    pub open spec fn wf(&self) -> bool {
        self@.wf()
    }

    /// A tracker in the initial state.
    pub fn new() -> (t: Tracker)
        ensures
            t@ == TrackerState::initial(),
            t.wf(),
    {
        let mut scopes: Vec<usize> = Vec::new();
        scopes.push(0);
        let t = Tracker { bindings: Vec::new(), scopes, borrows: Vec::new(), clock: 0 };
        assert(t@.scopes =~= seq![0usize]);
        t
    }

    /// The number of operations accepted so far, which is the position of
    /// the next one.
    pub fn clock(&self) -> (n: usize)
        ensures
            n == self@.clock,
    {
        self.clock
    }

    /// The number of open scopes.
    pub fn depth(&self) -> (n: usize)
        ensures
            n == self@.scopes.len(),
    {
        self.scopes.len()
    }

    /// The number of bindings declared so far.
    pub fn bindings_declared(&self) -> (n: usize)
        ensures
            n == self@.bindings.len(),
    {
        self.bindings.len()
    }

    /// The number of borrows taken so far.
    pub fn borrows_taken(&self) -> (n: usize)
        ensures
            n == self@.borrows.len(),
    {
        self.borrows.len()
    }

    /// Binding `b`, if it was declared.
    pub fn binding(&self, b: usize) -> (r: Option<Binding>)
        ensures
            r == if b < self@.bindings.len() {
                Some(self@.bindings[b as int])
            } else {
                None
            },
    {
        if b < self.bindings.len() {
            Some(self.bindings[b])
        } else {
            None
        }
    }

    /// The borrow with handle `h`, if it was taken.
    pub fn borrow_record(&self, h: usize) -> (r: Option<Borrow>)
        ensures
            r == if h < self@.borrows.len() {
                Some(self@.borrows[h as int])
            } else {
                None
            },
    {
        if h < self.borrows.len() {
            Some(self.borrows[h])
        } else {
            None
        }
    }

    /// The binding that owns `resource`, if any does.
    pub fn owner(&self, resource: usize) -> (r: Option<usize>)
        ensures
            match r {
                Some(b) => {
                    &&& b < self@.bindings.len()
                    &&& self@.bindings[b as int].state == (BindingState::Owns { resource })
                    &&& forall|i: int|
                        0 <= i < b ==> (#[trigger] self@.bindings[i]).state != (BindingState::Owns {
                            resource,
                        })
                },
                None => forall|i: int|
                    0 <= i < self@.bindings.len() ==> (#[trigger] self@.bindings[i]).state != (
                    BindingState::Owns { resource }),
            },
    {
        let mut b: usize = 0;
        while b < self.bindings.len()
            invariant
                b <= self.bindings.len(),
                forall|i: int|
                    0 <= i < b ==> (#[trigger] self.bindings@[i]).state != (BindingState::Owns {
                        resource,
                    }),
            decreases self.bindings.len() - b,
        {
            match self.bindings[b].state {
                BindingState::Owns { resource: owned } => {
                    if owned == resource {
                        return Some(b);
                    }
                },
                _ => {},
            }
            b = b + 1;
        }
        None
    }

    /// The number of live borrows of `resource` of the given kind.
    pub fn live_borrows(&self, resource: usize, kind: BorrowKind) -> (n: usize)
        ensures
            n == live_count(self@.borrows, resource, kind),
    {
        let mut n: usize = 0;
        let mut i: usize = 0;
        while i < self.borrows.len()
            invariant
                i <= self.borrows.len(),
                n <= i,
                n == live_count(self.borrows@.take(i as int), resource, kind),
            decreases self.borrows.len() - i,
        {
            let b = self.borrows[i];
            assert(self.borrows@.take(i + 1).drop_last() =~= self.borrows@.take(i as int));
            if b.live && b.resource == resource && b.kind == kind {
                n = n + 1;
            }
            i = i + 1;
        }
        assert(self.borrows@.take(i as int) =~= self.borrows@);
        n
    }

    fn first_live(&self, lo: usize, hi: usize, exclusive_only: bool) -> (r: Option<usize>)
        ensures
            match r {
                Some(h) => h < self@.borrows.len() && self@.first_live(
                    lo as int,
                    hi as int,
                    exclusive_only,
                    0,
                ) == Some(h as int),
                None => self@.first_live(lo as int, hi as int, exclusive_only, 0) is None,
            },
    {
        let mut h: usize = 0;
        while h < self.borrows.len()
            invariant
                h <= self.borrows.len(),
                forall|k: int|
                    0 <= k < h ==> !hits(
                        #[trigger] self.borrows@[k],
                        lo as int,
                        hi as int,
                        exclusive_only,
                    ),
            decreases self.borrows.len() - h,
        {
            let b = self.borrows[h];
            if b.live && lo <= b.referent && b.referent < hi && (!exclusive_only || b.kind
                == BorrowKind::Exclusive) {
                proof {
                    lemma_first_live_skip(self@, lo as int, hi as int, exclusive_only, 0, h as int);
                }
                return Some(h);
            }
            h = h + 1;
        }
        proof {
            lemma_first_live_skip(self@, lo as int, hi as int, exclusive_only, 0, h as int);
        }
        None
    }

    fn blocker(&self, b: usize, exclusive_only: bool) -> (r: Option<Borrow>)
        requires
            b < self@.bindings.len(),
        ensures
            r == self@.blocker(b, exclusive_only),
    {
        assert(b < self.bindings.len());
        match self.first_live(b, b + 1, exclusive_only) {
            Some(h) => Some(self.borrows[h]),
            None => None,
        }
    }

    fn source(&self, b: usize) -> (r: Result<usize, Fault>)
        ensures
            r == self@.source(b),
    {
        if b >= self.bindings.len() {
            return Err(Fault::IllFormed);
        }
        let binding = self.bindings[b];
        match binding.state {
            BindingState::Uninitialized => Err(Fault::IllFormed),
            BindingState::MovedOut => Err(
                Fault::Violation { kind: Violation::UseAfterMove, binding: b, origin: binding.since },
            ),
            BindingState::Owns { resource } => Ok(resource),
        }
    }

    fn target(&self, b: usize) -> (r: Result<(), Fault>)
        ensures
            r == self@.target(b),
    {
        if b >= self.bindings.len() {
            return Err(Fault::IllFormed);
        }
        let binding = self.bindings[b];
        match binding.state {
            BindingState::Uninitialized => Ok(()),
            BindingState::MovedOut => Err(
                Fault::Violation { kind: Violation::UseAfterMove, binding: b, origin: binding.since },
            ),
            BindingState::Owns { .. } => Err(
                Fault::Violation { kind: Violation::DoubleMove, binding: b, origin: binding.since },
            ),
        }
    }

    fn takeable(&self, src: usize) -> (r: Result<usize, Fault>)
        ensures
            r == self@.takeable(src),
    {
        let resource = match self.source(src) {
            Err(f) => {
                return Err(f);
            },
            Ok(resource) => resource,
        };
        match self.blocker(src, false) {
            Some(b) => {
                let kind = match b.kind {
                    BorrowKind::Exclusive => Violation::UseWhileExclusivelyBorrowed,
                    BorrowKind::Shared => Violation::BorrowOutlivesOwner,
                };
                Err(Fault::Violation { kind, binding: b.referent, origin: b.since })
            },
            None => Ok(resource),
        }
    }

    /// Opens a scope.
    pub fn begin_scope(&mut self)
        requires
            old(self).wf(),
            old(self)@.clock < usize::MAX,
        ensures
            final(self).wf(),
            old(self)@.begin_scope() == Ok::<TrackerState, Fault>(final(self)@),
    {
        proof {
            lemma_step_wf(self@, Op::BeginScope);
        }
        self.scopes.push(self.bindings.len());
        self.clock = self.clock + 1;
    }

    /// Ends the innermost open scope and returns the resources that this
    /// destroys.
    pub fn end_scope(&mut self) -> (r: Result<Vec<usize>, Fault>)
        requires
            old(self).wf(),
            old(self)@.clock < usize::MAX,
        ensures
            final(self).wf(),
            match old(self)@.end_scope() {
                Ok(s) => final(self)@ == s && r is Ok && r->Ok_0@ == old(self)@.destroyed(),
                Err(f) => final(self)@ == old(self)@ && r == Err::<Vec<usize>, Fault>(f),
            },
    {
        if self.scopes.len() == 0 {
            return Err(Fault::IllFormed);
        }
        let start = self.scopes[self.scopes.len() - 1];
        let n = self.bindings.len();
        match self.first_live(start, n, false) {
            Some(h) => {
                return Err(
                    Fault::Violation {
                        kind: Violation::BorrowOutlivesOwner,
                        binding: self.borrows[h].referent,
                        origin: self.borrows[h].since,
                    },
                );
            },
            None => {},
        }
        let ghost before = self@;
        proof {
            lemma_step_wf(before, Op::EndScope);
        }
        let mut gone: Vec<usize> = Vec::new();
        let mut i: usize = start;
        while i < n
            invariant
                start <= i <= n,
                n == before.bindings.len(),
                start == before.innermost(),
                self.bindings@.len() == n,
                forall|k: int|
                    0 <= k < n ==> #[trigger] self.bindings@[k] == if k < i {
                        before.dropped()[k]
                    } else {
                        before.bindings[k]
                    },
                gone@ == owned_in(before.bindings, start as int, i as int),
                self.scopes@ == before.scopes,
                self.borrows@ == before.borrows,
                self.clock == before.clock,
            decreases n - i,
        {
            let b = self.bindings[i];
            match b.state {
                BindingState::Owns { resource } => {
                    gone.push(resource);
                },
                _ => {},
            }
            match b.state {
                BindingState::MovedOut => {},
                _ => {
                    self.bindings.set(
                        i,
                        Binding {
                            state: BindingState::MovedOut,
                            mutable: b.mutable,
                            since: self.clock,
                        },
                    );
                },
            }
            i = i + 1;
        }
        assert(self.bindings@ =~= before.dropped());
        let innermost = self.scopes.len() - 1;
        let m = self.borrows.len();
        let mut h: usize = 0;
        while h < m
            invariant
                h <= m,
                m == before.borrows.len(),
                innermost == before.scopes.len() - 1,
                self.borrows@.len() == m,
                forall|k: int|
                    0 <= k < m ==> #[trigger] self.borrows@[k] == if k < h {
                        before.unscoped()[k]
                    } else {
                        before.borrows[k]
                    },
                self.bindings@ == before.dropped(),
                self.scopes@ == before.scopes,
                self.clock == before.clock,
            decreases m - h,
        {
            let b = self.borrows[h];
            let taken_here = match b.enclosing {
                Some(d) => d == innermost,
                None => false,
            };
            if taken_here {
                self.borrows.set(
                    h,
                    Borrow {
                        referent: b.referent,
                        resource: b.resource,
                        kind: b.kind,
                        live: b.live,
                        since: b.since,
                        enclosing: None,
                    },
                );
            }
            h = h + 1;
        }
        self.scopes.pop();
        self.clock = self.clock + 1;
        assert(self.borrows@ =~= before.unscoped());
        Ok(gone)
    }

    /// Declares an uninitialized binding in the innermost open scope and
    /// returns its number.
    pub fn declare(&mut self, mutable: bool) -> (r: Result<usize, Fault>)
        requires
            old(self).wf(),
            old(self)@.clock < usize::MAX,
        ensures
            final(self).wf(),
            match old(self)@.declare(mutable) {
                Ok(s) => final(self)@ == s && r == Ok::<usize, Fault>(
                    old(self)@.bindings.len() as usize,
                ),
                Err(f) => final(self)@ == old(self)@ && r == Err::<usize, Fault>(f),
            },
    {
        if self.scopes.len() == 0 {
            return Err(Fault::IllFormed);
        }
        proof {
            lemma_step_wf(self@, Op::Declare { mutable });
        }
        let b = self.bindings.len();
        self.bindings.push(
            Binding { state: BindingState::Uninitialized, mutable, since: self.clock },
        );
        self.clock = self.clock + 1;
        Ok(b)
    }

    /// Gives binding `b` a new resource and returns the resource.
    pub fn construct(&mut self, b: usize) -> (r: Result<usize, Fault>)
        requires
            old(self).wf(),
            old(self)@.clock < usize::MAX,
        ensures
            final(self).wf(),
            match old(self)@.construct(b) {
                Ok(s) => final(self)@ == s && r == Ok::<usize, Fault>(old(self)@.clock as usize),
                Err(f) => final(self)@ == old(self)@ && r == Err::<usize, Fault>(f),
            },
    {
        match self.target(b) {
            Err(f) => {
                return Err(f);
            },
            Ok(_) => {},
        }
        proof {
            lemma_step_wf(self@, Op::Construct { binding: b });
        }
        let resource = self.clock;
        let mutable = self.bindings[b].mutable;
        self.bindings.set(
            b,
            Binding { state: BindingState::Owns { resource }, mutable, since: self.clock },
        );
        self.clock = self.clock + 1;
        Ok(resource)
    }

    /// Gives binding `dst` a duplicate of what `src` owns and returns the
    /// new resource.
    pub fn clone_to(&mut self, src: usize, dst: usize) -> (r: Result<usize, Fault>)
        requires
            old(self).wf(),
            old(self)@.clock < usize::MAX,
        ensures
            final(self).wf(),
            match old(self)@.clone_to(src, dst) {
                Ok(s) => final(self)@ == s && r == Ok::<usize, Fault>(old(self)@.clock as usize),
                Err(f) => final(self)@ == old(self)@ && r == Err::<usize, Fault>(f),
            },
    {
        match self.source(src) {
            Err(f) => Err(f),
            Ok(_) => self.construct(dst),
        }
    }

    /// Moves the resource of binding `src` to binding `dst`.
    pub fn move_to(&mut self, src: usize, dst: usize) -> (r: Result<(), Fault>)
        requires
            old(self).wf(),
            old(self)@.clock < usize::MAX,
        ensures
            final(self).wf(),
            match old(self)@.move_to(src, dst) {
                Ok(s) => final(self)@ == s && r is Ok,
                Err(f) => final(self)@ == old(self)@ && r == Err::<(), Fault>(f),
            },
    {
        let resource = match self.takeable(src) {
            Err(f) => {
                return Err(f);
            },
            Ok(resource) => resource,
        };
        match self.target(dst) {
            Err(f) => {
                return Err(f);
            },
            Ok(_) => {},
        }
        proof {
            lemma_step_wf(self@, Op::Move { src, dst });
        }
        let from = self.bindings[src];
        let to = self.bindings[dst];
        self.bindings.set(
            src,
            Binding { state: BindingState::MovedOut, mutable: from.mutable, since: self.clock },
        );
        self.bindings.set(
            dst,
            Binding { state: BindingState::Owns { resource }, mutable: to.mutable, since: self.clock },
        );
        self.clock = self.clock + 1;
        Ok(())
    }

    /// Passes binding `arg` by value and returns the number of the callee's
    /// parameter, which now owns the resource.
    pub fn call_by_value(&mut self, arg: usize, mutable: bool) -> (r: Result<usize, Fault>)
        requires
            old(self).wf(),
            old(self)@.clock < usize::MAX,
        ensures
            final(self).wf(),
            match old(self)@.call_by_value(arg, mutable) {
                Ok(s) => final(self)@ == s && r == Ok::<usize, Fault>(
                    old(self)@.bindings.len() as usize,
                ),
                Err(f) => final(self)@ == old(self)@ && r == Err::<usize, Fault>(f),
            },
    {
        let resource = match self.takeable(arg) {
            Err(f) => {
                return Err(f);
            },
            Ok(resource) => resource,
        };
        proof {
            lemma_step_wf(self@, Op::CallByValue { arg, mutable });
        }
        let from = self.bindings[arg];
        let parameter = self.bindings.len();
        self.scopes.push(parameter);
        self.bindings.set(
            arg,
            Binding { state: BindingState::MovedOut, mutable: from.mutable, since: self.clock },
        );
        self.bindings.push(
            Binding { state: BindingState::Owns { resource }, mutable, since: self.clock },
        );
        self.clock = self.clock + 1;
        Ok(parameter)
    }

    /// Reads binding `b` through its owner.
    pub fn read(&mut self, b: usize) -> (r: Result<(), Fault>)
        requires
            old(self).wf(),
            old(self)@.clock < usize::MAX,
        ensures
            final(self).wf(),
            match old(self)@.read(b) {
                Ok(s) => final(self)@ == s && r is Ok,
                Err(f) => final(self)@ == old(self)@ && r == Err::<(), Fault>(f),
            },
    {
        match self.source(b) {
            Err(f) => {
                return Err(f);
            },
            Ok(_) => {},
        }
        match self.blocker(b, true) {
            Some(x) => {
                return Err(
                    Fault::Violation {
                        kind: Violation::UseWhileExclusivelyBorrowed,
                        binding: b,
                        origin: x.since,
                    },
                );
            },
            None => {},
        }
        proof {
            lemma_step_wf(self@, Op::Read { binding: b });
        }
        self.clock = self.clock + 1;
        Ok(())
    }

    /// Takes a borrow of binding `b` and returns its handle.
    pub fn borrow(&mut self, b: usize, kind: BorrowKind) -> (r: Result<usize, Fault>)
        requires
            old(self).wf(),
            old(self)@.clock < usize::MAX,
        ensures
            final(self).wf(),
            match old(self)@.borrow(b, kind) {
                Ok(s) => final(self)@ == s && r == Ok::<usize, Fault>(
                    old(self)@.borrows.len() as usize,
                ),
                Err(f) => final(self)@ == old(self)@ && r == Err::<usize, Fault>(f),
            },
    {
        let resource = match self.source(b) {
            Err(f) => {
                return Err(f);
            },
            Ok(resource) => resource,
        };
        let shared = match kind {
            BorrowKind::Shared => true,
            BorrowKind::Exclusive => false,
        };
        if !shared && !self.bindings[b].mutable {
            return Err(Fault::IllFormed);
        }
        match self.blocker(b, shared) {
            Some(x) => {
                return Err(
                    Fault::Violation {
                        kind: Violation::AliasedMutableBorrow,
                        binding: b,
                        origin: x.since,
                    },
                );
            },
            None => {},
        }
        proof {
            if shared {
                lemma_step_wf(self@, Op::BorrowShared { binding: b });
            } else {
                lemma_step_wf(self@, Op::BorrowExclusive { binding: b });
            }
        }
        let handle = self.borrows.len();
        let enclosing = if self.scopes.len() > 0 {
            Some(self.scopes.len() - 1)
        } else {
            None
        };
        self.borrows.push(
            Borrow { referent: b, resource, kind, live: true, since: self.clock, enclosing },
        );
        self.clock = self.clock + 1;
        Ok(handle)
    }

    /// Uses the borrow `h`, to read or, with `write`, to mutate.
    pub fn access(&mut self, h: usize, write: bool) -> (r: Result<(), Fault>)
        requires
            old(self).wf(),
            old(self)@.clock < usize::MAX,
        ensures
            final(self).wf(),
            match old(self)@.access(h, write) {
                Ok(s) => final(self)@ == s && r is Ok,
                Err(f) => final(self)@ == old(self)@ && r == Err::<(), Fault>(f),
            },
    {
        if h >= self.borrows.len() {
            return Err(Fault::IllFormed);
        }
        let b = self.borrows[h];
        let exclusive = match b.kind {
            BorrowKind::Exclusive => true,
            BorrowKind::Shared => false,
        };
        if !b.live || (write && !exclusive) {
            return Err(Fault::IllFormed);
        }
        proof {
            lemma_step_wf(self@, Op::ReadThroughBorrow { handle: h });
        }
        self.clock = self.clock + 1;
        Ok(())
    }

    /// Ends the live region of borrow `h`. Does nothing if there is no
    /// such borrow.
    pub fn release(&mut self, h: usize)
        requires
            old(self).wf(),
        ensures
            final(self).wf(),
            final(self)@ == old(self)@.release(h),
    {
        proof {
            lemma_release_wf(self@, h);
        }
        if h < self.borrows.len() {
            let b = self.borrows[h];
            self.borrows.set(
                h,
                Borrow {
                    referent: b.referent,
                    resource: b.resource,
                    kind: b.kind,
                    live: false,
                    since: b.since,
                    enclosing: b.enclosing,
                },
            );
        }
    }

    /// Applies `op`.
    pub fn apply(&mut self, op: Op) -> (r: Result<(), Fault>)
        requires
            old(self).wf(),
            old(self)@.clock < usize::MAX,
        ensures
            final(self).wf(),
            match old(self)@.step(op) {
                Ok(s) => final(self)@ == s && r is Ok,
                Err(f) => final(self)@ == old(self)@ && r == Err::<(), Fault>(f),
            },
    {
        match op {
            Op::BeginScope => {
                self.begin_scope();
                Ok(())
            },
            Op::EndScope => match self.end_scope() {
                Ok(_) => Ok(()),
                Err(f) => Err(f),
            },
            Op::Declare { mutable } => match self.declare(mutable) {
                Ok(_) => Ok(()),
                Err(f) => Err(f),
            },
            Op::Construct { binding } => match self.construct(binding) {
                Ok(_) => Ok(()),
                Err(f) => Err(f),
            },
            Op::Clone { src, dst } => match self.clone_to(src, dst) {
                Ok(_) => Ok(()),
                Err(f) => Err(f),
            },
            Op::Move { src, dst } => self.move_to(src, dst),
            Op::CallByValue { arg, mutable } => match self.call_by_value(arg, mutable) {
                Ok(_) => Ok(()),
                Err(f) => Err(f),
            },
            Op::Read { binding } => self.read(binding),
            Op::BorrowShared { binding } => match self.borrow(binding, BorrowKind::Shared) {
                Ok(_) => Ok(()),
                Err(f) => Err(f),
            },
            Op::BorrowExclusive { binding } => match self.borrow(binding, BorrowKind::Exclusive) {
                Ok(_) => Ok(()),
                Err(f) => Err(f),
            },
            Op::ReadThroughBorrow { handle } => self.access(handle, false),
            Op::MutateThroughBorrow { handle } => self.access(handle, true),
        }
    }
}

} // verus!
