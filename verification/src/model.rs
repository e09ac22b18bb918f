//! The mathematical model of the ownership and borrow tracker.
//!
//! A `TrackerState` records, for every binding declared so far, whether it
//! is uninitialized, owns a resource or has been moved out of, and for every
//! borrow taken so far, which binding it refers to and whether it is still
//! live. Each operation of the discipline is a function from a state to
//! either the next state or the `Fault` with which the operation is refused;
//! a refused operation leaves no trace in the state.

use vstd::prelude::*;

verus! {

/// The ways in which an operation can break the ownership discipline.
#[derive(Clone, Copy, Debug, PartialEq, Eq, Structural)]
pub enum Violation {
    /// A binding is read, moved, borrowed or written after its resource
    /// was moved away or its scope has ended.
    UseAfterMove,
    /// A resource is put into a binding that still owns one.
    DoubleMove,
    /// An exclusive borrow is taken while another borrow is live, or a
    /// shared borrow while an exclusive one is live.
    AliasedMutableBorrow,
    /// The owner gives up its resource, by the end of its scope or by a
    /// move, while a borrow of it is still live.
    BorrowOutlivesOwner,
    /// The owner is read or moved while an exclusive borrow is live.
    UseWhileExclusivelyBorrowed,
}

/// Why an operation is refused.
#[derive(Clone, Copy, Debug, PartialEq, Eq, Structural)]
pub enum Fault {
    /// The operation does not describe a step of a program: it names a
    /// binding or a borrow that does not exist, reads a binding that was
    /// never initialized, asks for write access where none can be had, or
    /// closes or uses a scope that is not open.
    IllFormed,
    /// The operation breaks the discipline. `binding` is the binding that
    /// the conflict is about. `origin` is the position of the earlier
    /// operation that this one conflicts with: the one that moved the
    /// resource away or ended the scope, that took the borrow, or that
    /// filled the binding.
    Violation { kind: Violation, binding: usize, origin: usize },
}

/// What a binding holds.
#[derive(Clone, Copy, Debug, PartialEq, Eq, Structural)]
pub enum BindingState {
    /// Declared, and never given a resource.
    Uninitialized,
    /// The one owner of `resource`. A resource is named by the position of
    /// the operation that constructed it.
    Owns { resource: usize },
    /// It owned a resource that has moved away, or its scope has ended:
    /// the binding is of no further use.
    MovedOut,
}

/// A named slot of a scope.
#[derive(Clone, Copy, Debug, PartialEq, Eq, Structural)]
pub struct Binding {
    pub state: BindingState,
    /// Fixed at declaration: whether the binding may be borrowed exclusively.
    pub mutable: bool,
    /// The position of the operation that put the binding into its state.
    pub since: usize,
}

/// What a borrow allows.
#[derive(Clone, Copy, Debug, PartialEq, Eq, Structural)]
pub enum BorrowKind {
    /// Reading; any number of shared borrows may be live together.
    Shared,
    /// Reading and writing; while it is live, no other borrow is.
    Exclusive,
}

/// A borrow of a resource through the binding that owns it.
#[derive(Clone, Copy, Debug, PartialEq, Eq, Structural)]
pub struct Borrow {
    /// The owning binding.
    pub referent: usize,
    pub resource: usize,
    pub kind: BorrowKind,
    /// Whether the borrow's live region has not ended yet.
    pub live: bool,
    /// The position of the operation that took the borrow.
    pub since: usize,
    /// The block that the borrow was taken in: the position in `scopes` of
    /// the scope that was innermost then. `None` once that scope has ended,
    /// or if no scope was open.
    pub enclosing: Option<usize>,
}

/// One operation of a program. Bindings are numbered in the order in which
/// they are declared (a call by value declares the callee's parameter),
/// borrows in the order in which they are taken.
#[derive(Clone, Copy, Debug, PartialEq, Eq, Structural)]
pub enum Op {
    /// A block begins.
    BeginScope,
    /// The innermost block ends, or the function that was called returns:
    /// what the bindings of the scope still own is destroyed.
    EndScope,
    /// A binding is declared, uninitialized, in the innermost scope.
    Declare { mutable: bool },
    /// A new resource is constructed and bound.
    Construct { binding: usize },
    /// The resource of `src` is duplicated; `dst` owns the duplicate.
    Clone { src: usize, dst: usize },
    /// The resource of `src` moves to `dst`.
    Move { src: usize, dst: usize },
    /// A function is called with `arg` passed by value: its scope begins,
    /// and the resource moves to its parameter, a new binding. The function
    /// hands the value back by a `Move` to a binding of the caller before
    /// its `EndScope`.
    CallByValue { arg: usize, mutable: bool },
    /// The binding is read through its owner.
    Read { binding: usize },
    /// A shared borrow of the binding is taken.
    BorrowShared { binding: usize },
    /// An exclusive borrow of the binding is taken.
    BorrowExclusive { binding: usize },
    /// The borrow is used to read.
    ReadThroughBorrow { handle: usize },
    /// The borrow is used to mutate what it refers to.
    MutateThroughBorrow { handle: usize },
}

/// The tracker's state as plain mathematical data.
#[verifier::ext_equal]
pub struct TrackerState {
    /// Every binding declared so far, in declaration order.
    pub bindings: Seq<Binding>,
    /// The open scopes, outermost first: for each, the number of bindings
    /// that had been declared when it was opened.
    pub scopes: Seq<usize>,
    /// Every borrow taken so far, in the order taken.
    pub borrows: Seq<Borrow>,
    /// The number of operations accepted so far.
    pub clock: nat,
}

/// Whether `b` is a live borrow of a binding in `lo..hi`, of any kind or,
/// with `exclusive_only`, an exclusive one.
pub open spec fn hits(b: Borrow, lo: int, hi: int, exclusive_only: bool) -> bool {
    &&& b.live
    &&& lo <= b.referent < hi
    &&& exclusive_only ==> b.kind == BorrowKind::Exclusive
}

/// The resources owned by the bindings `lo..hi`, in binding order.
pub open spec fn owned_in(bindings: Seq<Binding>, lo: int, hi: int) -> Seq<usize>
    decreases hi - lo,
{
    if hi <= lo {
        Seq::empty()
    } else {
        match bindings[hi - 1].state {
            BindingState::Owns { resource } => owned_in(bindings, lo, hi - 1).push(resource),
            _ => owned_in(bindings, lo, hi - 1),
        }
    }
}

/// Whether `b` is a live borrow of `resource` of the given kind.
pub open spec fn counted(b: Borrow, resource: usize, kind: BorrowKind) -> bool {
    b.live && b.resource == resource && b.kind == kind
}

/// The number of live borrows of `resource` of the given kind.
pub open spec fn live_count(borrows: Seq<Borrow>, resource: usize, kind: BorrowKind) -> nat
    decreases borrows.len(),
{
    if borrows.len() == 0 {
        0
    } else if counted(borrows.last(), resource, kind) {
        live_count(borrows.drop_last(), resource, kind) + 1
    } else {
        live_count(borrows.drop_last(), resource, kind)
    }
}

/// The fault for an operation that gives up ownership of a binding while
/// the borrow `b` of it is live.
pub open spec fn owner_taken(b: Borrow) -> Fault {
    Fault::Violation {
        kind: if b.kind == BorrowKind::Exclusive {
            Violation::UseWhileExclusivelyBorrowed
        } else {
            Violation::BorrowOutlivesOwner
        },
        binding: b.referent,
        origin: b.since,
    }
}

impl TrackerState {
    /// The state before any operation: one open scope, nothing declared.
    pub open spec fn initial() -> TrackerState {
        TrackerState { bindings: Seq::empty(), scopes: seq![0usize], borrows: Seq::empty(), clock: 0 }
    }

    /// The invariants of every reachable state.
    pub open spec fn wf(self) -> bool {
        &&& self.clock <= usize::MAX
        &&& self.bindings.len() <= self.clock
        &&& self.borrows.len() <= self.clock
        &&& self.scopes.len() <= self.clock + 1
        &&& forall|i: int| 0 <= i < self.scopes.len() ==> #[trigger] self.scopes[i] <= self.bindings.len()
        &&& forall|i: int, j: int|
            0 <= i <= j < self.scopes.len() ==> self.scopes[i] <= self.scopes[j]
        &&& forall|i: int|
            0 <= i < self.bindings.len() ==> (#[trigger] self.bindings[i]).since < self.clock
        &&& forall|i: int|
            0 <= i < self.bindings.len() ==> (#[trigger] self.bindings[i].state matches BindingState::Owns {
                resource,
            } ==> resource < self.clock)
        &&& self.single_owner()
        &&& forall|h: int|
            0 <= h < self.borrows.len() ==> (#[trigger] self.borrows[h]).since < self.clock
        &&& forall|h: int|
            0 <= h < self.borrows.len() ==> (#[trigger] self.borrows[h]).referent
                < self.bindings.len()
        &&& forall|h: int|
            0 <= h < self.borrows.len() ==> ((#[trigger] self.borrows[h]).enclosing matches Some(d)
                ==> d < self.scopes.len())
        &&& forall|h: int|
            0 <= h < self.borrows.len() && (#[trigger] self.borrows[h]).live ==> self.anchored(
                self.borrows[h],
            )
        &&& self.exclusion()
    }

    /// No resource is owned by two bindings.
    pub open spec fn single_owner(self) -> bool {
        forall|i: int, j: int|
            0 <= i < self.bindings.len() && 0 <= j < self.bindings.len() && i != j
                && #[trigger] self.bindings[i].state is Owns ==> #[trigger] self.bindings[j].state
                != self.bindings[i].state
    }

    /// The borrow's referent exists and owns the borrowed resource, and
    /// is mutable where the borrow is exclusive.
    pub open spec fn anchored(self, b: Borrow) -> bool {
        &&& b.referent < self.bindings.len()
        &&& self.bindings[b.referent as int].state == (BindingState::Owns { resource: b.resource })
        &&& b.kind == BorrowKind::Exclusive ==> self.bindings[b.referent as int].mutable
    }

    /// Two live borrows of one binding are both shared.
    pub open spec fn exclusion(self) -> bool {
        forall|h: int, k: int|
            0 <= h < self.borrows.len() && 0 <= k < self.borrows.len() && h != k
                && (#[trigger] self.borrows[h]).live && (#[trigger] self.borrows[k]).live
                && self.borrows[h].referent == self.borrows[k].referent ==> self.borrows[h].kind
                == BorrowKind::Shared && self.borrows[k].kind == BorrowKind::Shared
    }

    /// The position of the first borrow at or after `from` that `hits`
    /// describes.
    pub open spec fn first_live(self, lo: int, hi: int, exclusive_only: bool, from: int) -> Option<
        int,
    >
        decreases self.borrows.len() - from,
    {
        if from < 0 || from >= self.borrows.len() {
            None
        } else if hits(self.borrows[from], lo, hi, exclusive_only) {
            Some(from)
        } else {
            self.first_live(lo, hi, exclusive_only, from + 1)
        }
    }

    /// The first live borrow of binding `b`: of any kind or, with
    /// `exclusive_only`, the first exclusive one.
    pub open spec fn blocker(self, b: usize, exclusive_only: bool) -> Option<Borrow> {
        match self.first_live(b as int, b + 1, exclusive_only, 0) {
            Some(h) => Some(self.borrows[h]),
            None => None,
        }
    }

    /// The resource that binding `b` can hand on, or why it cannot be read.
    pub open spec fn source(self, b: usize) -> Result<usize, Fault> {
        if b >= self.bindings.len() {
            Err(Fault::IllFormed)
        } else {
            match self.bindings[b as int].state {
                BindingState::Uninitialized => Err(Fault::IllFormed),
                BindingState::MovedOut => Err(
                    Fault::Violation {
                        kind: Violation::UseAfterMove,
                        binding: b,
                        origin: self.bindings[b as int].since,
                    },
                ),
                BindingState::Owns { resource } => Ok(resource),
            }
        }
    }

    /// Whether binding `b` can take a resource, or why it cannot.
    pub open spec fn target(self, b: usize) -> Result<(), Fault> {
        if b >= self.bindings.len() {
            Err(Fault::IllFormed)
        } else {
            match self.bindings[b as int].state {
                BindingState::Uninitialized => Ok(()),
                BindingState::MovedOut => Err(
                    Fault::Violation {
                        kind: Violation::UseAfterMove,
                        binding: b,
                        origin: self.bindings[b as int].since,
                    },
                ),
                BindingState::Owns { .. } => Err(
                    Fault::Violation {
                        kind: Violation::DoubleMove,
                        binding: b,
                        origin: self.bindings[b as int].since,
                    },
                ),
            }
        }
    }

    /// Binding `b` as it is once this operation has given it `resource`.
    pub open spec fn filled(self, b: usize, resource: usize) -> Binding {
        Binding {
            state: BindingState::Owns { resource },
            mutable: self.bindings[b as int].mutable,
            since: self.clock as usize,
        }
    }

    /// Binding `b` as it is once this operation has taken its resource.
    pub open spec fn vacated(self, b: int) -> Binding {
        Binding {
            state: BindingState::MovedOut,
            mutable: self.bindings[b].mutable,
            since: self.clock as usize,
        }
    }

    /// Opens a scope. Never refused.
    pub open spec fn begin_scope(self) -> Result<TrackerState, Fault> {
        Ok(
            TrackerState {
                scopes: self.scopes.push(self.bindings.len() as usize),
                clock: self.clock + 1,
                ..self
            },
        )
    }

    /// The position in `scopes` of the innermost open scope, if one is open.
    pub open spec fn innermost_scope(self) -> Option<usize> {
        if self.scopes.len() > 0 {
            Some((self.scopes.len() - 1) as usize)
        } else {
            None
        }
    }

    /// Where the bindings of the innermost open scope begin.
    pub open spec fn innermost(self) -> int {
        self.scopes.last() as int
    }

    /// The bindings once the innermost open scope has ended: every binding
    /// of the scope that was not moved out before is so now.
    pub open spec fn dropped(self) -> Seq<Binding> {
        Seq::new(
            self.bindings.len(),
            |i: int|
                if i >= self.innermost() && !(self.bindings[i].state is MovedOut) {
                    self.vacated(i)
                } else {
                    self.bindings[i]
                },
        )
    }

    /// The borrows once the innermost open scope has ended: those taken in
    /// it have no enclosing scope any more.
    pub open spec fn unscoped(self) -> Seq<Borrow> {
        Seq::new(
            self.borrows.len(),
            |h: int|
                if self.borrows[h].enclosing is Some && self.borrows[h].enclosing
                    == self.innermost_scope() {
                    Borrow { enclosing: None, ..self.borrows[h] }
                } else {
                    self.borrows[h]
                },
        )
    }

    /// The resources that the end of the innermost open scope destroys:
    /// those that its bindings still own.
    pub open spec fn destroyed(self) -> Seq<usize> {
        owned_in(self.bindings, self.innermost(), self.bindings.len() as int)
    }

    /// Ends the innermost open scope. Refused while a borrow of one of its
    /// bindings is live.
    pub open spec fn end_scope(self) -> Result<TrackerState, Fault> {
        if self.scopes.len() == 0 {
            Err(Fault::IllFormed)
        } else {
            match self.first_live(self.innermost(), self.bindings.len() as int, false, 0) {
                Some(h) => Err(
                    Fault::Violation {
                        kind: Violation::BorrowOutlivesOwner,
                        binding: self.borrows[h].referent,
                        origin: self.borrows[h].since,
                    },
                ),
                None => Ok(
                    TrackerState {
                        bindings: self.dropped(),
                        scopes: self.scopes.drop_last(),
                        borrows: self.unscoped(),
                        clock: self.clock + 1,
                    },
                ),
            }
        }
    }

    /// Declares an uninitialized binding in the innermost open scope.
    pub open spec fn declare(self, mutable: bool) -> Result<TrackerState, Fault> {
        if self.scopes.len() == 0 {
            Err(Fault::IllFormed)
        } else {
            Ok(
                TrackerState {
                    bindings: self.bindings.push(
                        Binding {
                            state: BindingState::Uninitialized,
                            mutable,
                            since: self.clock as usize,
                        },
                    ),
                    clock: self.clock + 1,
                    ..self
                },
            )
        }
    }

    /// Gives binding `b` a new resource, named by this operation's position.
    pub open spec fn construct(self, b: usize) -> Result<TrackerState, Fault> {
        match self.target(b) {
            Err(f) => Err(f),
            Ok(_) => Ok(
                TrackerState {
                    bindings: self.bindings.update(b as int, self.filled(b, self.clock as usize)),
                    clock: self.clock + 1,
                    ..self
                },
            ),
        }
    }

    /// Gives binding `dst` a new resource, a duplicate of what `src` owns.
    /// Borrows of `src` do not matter, and `src` is left as it is.
    pub open spec fn clone_to(self, src: usize, dst: usize) -> Result<TrackerState, Fault> {
        match self.source(src) {
            Err(f) => Err(f),
            Ok(_) => self.construct(dst),
        }
    }

    /// Why the resource of binding `src` cannot be taken from it, if so.
    pub open spec fn takeable(self, src: usize) -> Result<usize, Fault> {
        match self.source(src) {
            Err(f) => Err(f),
            Ok(resource) => match self.blocker(src, false) {
                Some(b) => Err(owner_taken(b)),
                None => Ok(resource),
            },
        }
    }

    /// Moves the resource of `src` to `dst`.
    pub open spec fn move_to(self, src: usize, dst: usize) -> Result<TrackerState, Fault> {
        match self.takeable(src) {
            Err(f) => Err(f),
            Ok(resource) => match self.target(dst) {
                Err(f) => Err(f),
                Ok(_) => Ok(
                    TrackerState {
                        bindings: self.bindings.update(src as int, self.vacated(src as int)).update(
                            dst as int,
                            self.filled(dst, resource),
                        ),
                        clock: self.clock + 1,
                        ..self
                    },
                ),
            },
        }
    }

    /// Passes binding `arg` by value: opens the callee's scope and moves the
    /// resource into a new binding there, the parameter.
    pub open spec fn call_by_value(self, arg: usize, mutable: bool) -> Result<TrackerState, Fault> {
        match self.takeable(arg) {
            Err(f) => Err(f),
            Ok(resource) => Ok(
                TrackerState {
                    bindings: self.bindings.update(arg as int, self.vacated(arg as int)).push(
                        Binding {
                            state: BindingState::Owns { resource },
                            mutable,
                            since: self.clock as usize,
                        },
                    ),
                    scopes: self.scopes.push(self.bindings.len() as usize),
                    clock: self.clock + 1,
                    ..self
                },
            ),
        }
    }

    /// Reads binding `b` through its owner.
    pub open spec fn read(self, b: usize) -> Result<TrackerState, Fault> {
        match self.source(b) {
            Err(f) => Err(f),
            Ok(_) => match self.blocker(b, true) {
                Some(x) => Err(
                    Fault::Violation {
                        kind: Violation::UseWhileExclusivelyBorrowed,
                        binding: b,
                        origin: x.since,
                    },
                ),
                None => Ok(TrackerState { clock: self.clock + 1, ..self }),
            },
        }
    }

    /// Takes a borrow of binding `b`. The new borrow's position in
    /// `borrows` is its handle.
    pub open spec fn borrow(self, b: usize, kind: BorrowKind) -> Result<TrackerState, Fault> {
        match self.source(b) {
            Err(f) => Err(f),
            Ok(resource) => if kind == BorrowKind::Exclusive && !self.bindings[b as int].mutable {
                Err(Fault::IllFormed)
            } else {
                match self.blocker(b, kind == BorrowKind::Shared) {
                    Some(x) => Err(
                        Fault::Violation {
                            kind: Violation::AliasedMutableBorrow,
                            binding: b,
                            origin: x.since,
                        },
                    ),
                    None => Ok(
                        TrackerState {
                            borrows: self.borrows.push(
                                Borrow {
                                    referent: b,
                                    resource,
                                    kind,
                                    live: true,
                                    since: self.clock as usize,
                                    enclosing: self.innermost_scope(),
                                },
                            ),
                            clock: self.clock + 1,
                            ..self
                        },
                    ),
                }
            },
        }
    }

    /// Uses the borrow `h`: to read or, with `write`, to mutate, which only
    /// an exclusive borrow allows.
    pub open spec fn access(self, h: usize, write: bool) -> Result<TrackerState, Fault> {
        if h >= self.borrows.len() || !self.borrows[h as int].live || (write
            && self.borrows[h as int].kind != BorrowKind::Exclusive) {
            Err(Fault::IllFormed)
        } else {
            Ok(TrackerState { clock: self.clock + 1, ..self })
        }
    }

    /// Ends the live region of borrow `h`. Not an operation of the program:
    /// the clock stands still.
    pub open spec fn release(self, h: usize) -> TrackerState {
        if h < self.borrows.len() {
            TrackerState {
                borrows: self.borrows.update(
                    h as int,
                    Borrow { live: false, ..self.borrows[h as int] },
                ),
                ..self
            }
        } else {
            self
        }
    }

    /// The state after `op`, or the fault with which `op` is refused.
    pub open spec fn step(self, op: Op) -> Result<TrackerState, Fault> {
        match op {
            Op::BeginScope => self.begin_scope(),
            Op::EndScope => self.end_scope(),
            Op::Declare { mutable } => self.declare(mutable),
            Op::Construct { binding } => self.construct(binding),
            Op::Clone { src, dst } => self.clone_to(src, dst),
            Op::Move { src, dst } => self.move_to(src, dst),
            Op::CallByValue { arg, mutable } => self.call_by_value(arg, mutable),
            Op::Read { binding } => self.read(binding),
            Op::BorrowShared { binding } => self.borrow(binding, BorrowKind::Shared),
            Op::BorrowExclusive { binding } => self.borrow(binding, BorrowKind::Exclusive),
            Op::ReadThroughBorrow { handle } => self.access(handle, false),
            Op::MutateThroughBorrow { handle } => self.access(handle, true),
        }
    }
}

} // verus!
