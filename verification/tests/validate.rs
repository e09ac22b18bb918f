use ownership::model::{Op, Violation};
use ownership::trace::{validate, RegionRule, Verdict};

fn rejected(kind: Violation, at: usize, binding: usize, origin: usize) -> Verdict {
    Verdict::Rejected { kind, at, binding, origin }
}

#[test]
fn empty_program_is_accepted() {
    assert_eq!(validate(&Vec::new(), RegionRule::LastUse), Verdict::Accepted);
}

#[test]
fn construct_and_read_is_accepted() {
    let trace = vec![
        Op::Declare { mutable: false },
        Op::Construct { binding: 0 },
        Op::Read { binding: 0 },
        Op::EndScope,
    ];
    assert_eq!(validate(&trace, RegionRule::LastUse), Verdict::Accepted);
}

#[test]
fn call_by_value_without_return_invalidates_the_argument() {
    // s = "neat."; simple_move(s); use of s
    let trace = vec![
        Op::Declare { mutable: false },
        Op::Construct { binding: 0 },
        Op::CallByValue { arg: 0, mutable: false },
        Op::Read { binding: 1 },
        Op::EndScope,
        Op::Read { binding: 0 },
    ];
    assert_eq!(validate(&trace, RegionRule::LastUse), rejected(Violation::UseAfterMove, 5, 0, 2));
}

#[test]
fn shared_borrow_after_last_use_of_exclusive_is_accepted() {
    let trace = vec![
        Op::Declare { mutable: true },
        Op::Construct { binding: 0 },
        Op::BorrowExclusive { binding: 0 },
        Op::MutateThroughBorrow { handle: 0 },
        Op::BorrowShared { binding: 0 },
        Op::ReadThroughBorrow { handle: 1 },
    ];
    assert_eq!(validate(&trace, RegionRule::LastUse), Verdict::Accepted);
}

#[test]
fn shared_borrow_while_exclusive_is_live_is_rejected() {
    let trace = vec![
        Op::Declare { mutable: true },
        Op::Construct { binding: 0 },
        Op::BorrowExclusive { binding: 0 },
        Op::BorrowShared { binding: 0 },
        Op::MutateThroughBorrow { handle: 0 },
    ];
    assert_eq!(validate(&trace, RegionRule::LastUse), rejected(Violation::AliasedMutableBorrow, 3, 0, 2));
}

#[test]
fn exclusive_borrow_while_shared_is_live_is_rejected() {
    let trace = vec![
        Op::Declare { mutable: true },
        Op::Construct { binding: 0 },
        Op::BorrowShared { binding: 0 },
        Op::BorrowExclusive { binding: 0 },
        Op::ReadThroughBorrow { handle: 0 },
    ];
    assert_eq!(validate(&trace, RegionRule::LastUse), rejected(Violation::AliasedMutableBorrow, 3, 0, 2));
}

#[test]
fn second_exclusive_borrow_while_first_is_live_is_rejected() {
    let trace = vec![
        Op::Declare { mutable: true },
        Op::Construct { binding: 0 },
        Op::BorrowExclusive { binding: 0 },
        Op::BorrowExclusive { binding: 0 },
        Op::MutateThroughBorrow { handle: 0 },
    ];
    assert_eq!(validate(&trace, RegionRule::LastUse), rejected(Violation::AliasedMutableBorrow, 3, 0, 2));
}

#[test]
fn a_borrow_that_is_never_used_ends_where_it_was_taken() {
    let trace = vec![
        Op::Declare { mutable: true },
        Op::Construct { binding: 0 },
        Op::BorrowExclusive { binding: 0 },
        Op::BorrowExclusive { binding: 0 },
        Op::MutateThroughBorrow { handle: 1 },
        Op::Read { binding: 0 },
    ];
    assert_eq!(validate(&trace, RegionRule::LastUse), Verdict::Accepted);
}

#[test]
fn shared_borrows_live_together() {
    // r1 = &s; r2 = &s; use of both
    let trace = vec![
        Op::Declare { mutable: false },
        Op::Construct { binding: 0 },
        Op::BorrowShared { binding: 0 },
        Op::BorrowShared { binding: 0 },
        Op::ReadThroughBorrow { handle: 0 },
        Op::ReadThroughBorrow { handle: 1 },
        Op::Read { binding: 0 },
    ];
    assert_eq!(validate(&trace, RegionRule::LastUse), Verdict::Accepted);
}

#[test]
fn the_conflict_is_with_the_first_live_borrow() {
    let trace = vec![
        Op::Declare { mutable: true },
        Op::Construct { binding: 0 },
        Op::BorrowShared { binding: 0 },
        Op::BorrowShared { binding: 0 },
        Op::BorrowExclusive { binding: 0 },
        Op::ReadThroughBorrow { handle: 0 },
        Op::ReadThroughBorrow { handle: 1 },
    ];
    assert_eq!(validate(&trace, RegionRule::LastUse), rejected(Violation::AliasedMutableBorrow, 4, 0, 2));
    // with the first one no longer used, the conflict is with the second
    let trace = vec![
        Op::Declare { mutable: true },
        Op::Construct { binding: 0 },
        Op::BorrowShared { binding: 0 },
        Op::BorrowShared { binding: 0 },
        Op::BorrowExclusive { binding: 0 },
        Op::ReadThroughBorrow { handle: 1 },
    ];
    assert_eq!(validate(&trace, RegionRule::LastUse), rejected(Violation::AliasedMutableBorrow, 4, 0, 3));
}

#[test]
fn exclusive_borrow_in_a_block_of_its_own() {
    // { r1 = &mut s; r1.push_str(..); use of r1 } r2 = &s; use of r2
    let trace = vec![
        Op::Declare { mutable: true },
        Op::Construct { binding: 0 },
        Op::BeginScope,
        Op::BorrowExclusive { binding: 0 },
        Op::MutateThroughBorrow { handle: 0 },
        Op::ReadThroughBorrow { handle: 0 },
        Op::EndScope,
        Op::BorrowShared { binding: 0 },
        Op::ReadThroughBorrow { handle: 1 },
    ];
    assert_eq!(validate(&trace, RegionRule::LastUse), Verdict::Accepted);
}

#[test]
fn exclusive_borrow_after_last_use_of_shared_in_one_block() {
    // r2 = &s; use of r2; r1 = &mut s; r1.push_str(..); use of r1
    let trace = vec![
        Op::Declare { mutable: true },
        Op::Construct { binding: 0 },
        Op::BorrowShared { binding: 0 },
        Op::ReadThroughBorrow { handle: 0 },
        Op::BorrowExclusive { binding: 0 },
        Op::MutateThroughBorrow { handle: 1 },
        Op::ReadThroughBorrow { handle: 1 },
    ];
    assert_eq!(validate(&trace, RegionRule::LastUse), Verdict::Accepted);
}

#[test]
fn reference_to_a_local_of_an_ended_scope_is_rejected() {
    // { s = ..; r = &s } use of r
    let trace = vec![
        Op::BeginScope,
        Op::Declare { mutable: false },
        Op::Construct { binding: 0 },
        Op::BorrowShared { binding: 0 },
        Op::EndScope,
        Op::ReadThroughBorrow { handle: 0 },
    ];
    assert_eq!(validate(&trace, RegionRule::LastUse), rejected(Violation::BorrowOutlivesOwner, 4, 0, 3));
}

#[test]
fn borrow_of_an_outer_binding_survives_an_inner_scope() {
    let trace = vec![
        Op::Declare { mutable: false },
        Op::Construct { binding: 0 },
        Op::BeginScope,
        Op::BorrowShared { binding: 0 },
        Op::EndScope,
        Op::ReadThroughBorrow { handle: 0 },
    ];
    assert_eq!(validate(&trace, RegionRule::LastUse), Verdict::Accepted);
}

#[test]
fn reading_the_owner_while_exclusively_borrowed_is_rejected() {
    let trace = vec![
        Op::Declare { mutable: true },
        Op::Construct { binding: 0 },
        Op::BorrowExclusive { binding: 0 },
        Op::Read { binding: 0 },
        Op::MutateThroughBorrow { handle: 0 },
    ];
    assert_eq!(validate(&trace, RegionRule::LastUse), rejected(Violation::UseWhileExclusivelyBorrowed, 3, 0, 2));
}

#[test]
fn reading_the_owner_while_shared_borrowed_is_accepted() {
    let trace = vec![
        Op::Declare { mutable: true },
        Op::Construct { binding: 0 },
        Op::BorrowShared { binding: 0 },
        Op::Read { binding: 0 },
        Op::ReadThroughBorrow { handle: 0 },
    ];
    assert_eq!(validate(&trace, RegionRule::LastUse), Verdict::Accepted);
}

#[test]
fn moving_the_owner_while_exclusively_borrowed_is_rejected() {
    let trace = vec![
        Op::Declare { mutable: true },
        Op::Declare { mutable: false },
        Op::Construct { binding: 0 },
        Op::BorrowExclusive { binding: 0 },
        Op::Move { src: 0, dst: 1 },
        Op::MutateThroughBorrow { handle: 0 },
    ];
    assert_eq!(validate(&trace, RegionRule::LastUse), rejected(Violation::UseWhileExclusivelyBorrowed, 4, 0, 3));
}

#[test]
fn moving_the_owner_while_shared_borrowed_is_rejected() {
    let trace = vec![
        Op::Declare { mutable: true },
        Op::Declare { mutable: false },
        Op::Construct { binding: 0 },
        Op::BorrowShared { binding: 0 },
        Op::Move { src: 0, dst: 1 },
        Op::ReadThroughBorrow { handle: 0 },
    ];
    assert_eq!(validate(&trace, RegionRule::LastUse), rejected(Violation::BorrowOutlivesOwner, 4, 0, 3));
}

#[test]
fn calling_by_value_while_borrowed_is_rejected() {
    let trace = vec![
        Op::Declare { mutable: true },
        Op::Construct { binding: 0 },
        Op::BorrowExclusive { binding: 0 },
        Op::CallByValue { arg: 0, mutable: false },
        Op::MutateThroughBorrow { handle: 0 },
    ];
    assert_eq!(validate(&trace, RegionRule::LastUse), rejected(Violation::UseWhileExclusivelyBorrowed, 3, 0, 2));
}

#[test]
fn moving_after_the_last_use_of_a_borrow_is_accepted() {
    let trace = vec![
        Op::Declare { mutable: true },
        Op::Declare { mutable: false },
        Op::Construct { binding: 0 },
        Op::BorrowShared { binding: 0 },
        Op::ReadThroughBorrow { handle: 0 },
        Op::Move { src: 0, dst: 1 },
        Op::Read { binding: 1 },
    ];
    assert_eq!(validate(&trace, RegionRule::LastUse), Verdict::Accepted);
}

#[test]
fn read_after_move_is_rejected() {
    // s2 = s; use of s
    let trace = vec![
        Op::Declare { mutable: false },
        Op::Declare { mutable: true },
        Op::Construct { binding: 0 },
        Op::Move { src: 0, dst: 1 },
        Op::Read { binding: 1 },
        Op::Read { binding: 0 },
    ];
    assert_eq!(validate(&trace, RegionRule::LastUse), rejected(Violation::UseAfterMove, 5, 0, 3));
}

#[test]
fn second_move_of_one_binding_is_rejected_as_use_after_move() {
    let trace = vec![
        Op::Declare { mutable: false },
        Op::Declare { mutable: false },
        Op::Declare { mutable: false },
        Op::Construct { binding: 0 },
        Op::Move { src: 0, dst: 1 },
        Op::Move { src: 0, dst: 2 },
    ];
    assert_eq!(validate(&trace, RegionRule::LastUse), rejected(Violation::UseAfterMove, 5, 0, 4));
}

#[test]
fn every_use_of_a_moved_out_binding_is_rejected() {
    let head = vec![
        Op::Declare { mutable: true },
        Op::Declare { mutable: false },
        Op::Declare { mutable: false },
        Op::Construct { binding: 0 },
        Op::Move { src: 0, dst: 1 },
        Op::Read { binding: 1 },
    ];
    let uses = vec![
        Op::Read { binding: 0 },
        Op::Clone { src: 0, dst: 2 },
        Op::Move { src: 0, dst: 2 },
        Op::CallByValue { arg: 0, mutable: false },
        Op::BorrowShared { binding: 0 },
        Op::BorrowExclusive { binding: 0 },
        Op::Construct { binding: 0 },
    ];
    for op in uses {
        let mut trace = head.clone();
        trace.push(op);
        assert_eq!(validate(&trace, RegionRule::LastUse), rejected(Violation::UseAfterMove, 6, 0, 4));
    }
}

#[test]
fn use_after_the_end_of_the_scope_is_rejected() {
    let trace = vec![
        Op::BeginScope,
        Op::Declare { mutable: false },
        Op::Construct { binding: 0 },
        Op::EndScope,
        Op::Read { binding: 0 },
    ];
    assert_eq!(validate(&trace, RegionRule::LastUse), rejected(Violation::UseAfterMove, 4, 0, 3));
}

#[test]
fn moving_into_a_binding_that_owns_is_a_double_move() {
    let trace = vec![
        Op::Declare { mutable: false },
        Op::Declare { mutable: false },
        Op::Construct { binding: 0 },
        Op::Construct { binding: 1 },
        Op::Move { src: 0, dst: 1 },
    ];
    assert_eq!(validate(&trace, RegionRule::LastUse), rejected(Violation::DoubleMove, 4, 1, 3));
}

#[test]
fn constructing_into_a_binding_that_owns_is_a_double_move() {
    let trace = vec![
        Op::Declare { mutable: true },
        Op::Construct { binding: 0 },
        Op::Read { binding: 0 },
        Op::Construct { binding: 0 },
    ];
    assert_eq!(validate(&trace, RegionRule::LastUse), rejected(Violation::DoubleMove, 3, 0, 1));
}

#[test]
fn moving_a_binding_to_itself_is_a_double_move() {
    let trace = vec![
        Op::Declare { mutable: true },
        Op::Construct { binding: 0 },
        Op::Move { src: 0, dst: 0 },
    ];
    assert_eq!(validate(&trace, RegionRule::LastUse), rejected(Violation::DoubleMove, 2, 0, 1));
}

#[test]
fn value_moved_in_and_out_of_a_function_is_usable_in_the_caller() {
    // s3 = move_in_and_out(s2); use of s3
    let trace = vec![
        Op::Declare { mutable: false },
        Op::Construct { binding: 0 },
        Op::Declare { mutable: false },
        Op::CallByValue { arg: 0, mutable: false },
        Op::Read { binding: 2 },
        Op::Move { src: 2, dst: 1 },
        Op::EndScope,
        Op::Read { binding: 1 },
    ];
    assert_eq!(validate(&trace, RegionRule::LastUse), Verdict::Accepted);
}

#[test]
fn value_moved_out_of_an_inner_scope_is_usable_outside() {
    // s = move_from_inner()
    let trace = vec![
        Op::Declare { mutable: false },
        Op::BeginScope,
        Op::Declare { mutable: false },
        Op::Construct { binding: 1 },
        Op::Move { src: 1, dst: 0 },
        Op::EndScope,
        Op::Read { binding: 0 },
    ];
    assert_eq!(validate(&trace, RegionRule::LastUse), Verdict::Accepted);
}

#[test]
fn clone_leaves_the_source_usable() {
    // s4 = s3.clone(); s4.push_str(..); use of both
    let trace = vec![
        Op::Declare { mutable: false },
        Op::Declare { mutable: true },
        Op::Construct { binding: 0 },
        Op::Clone { src: 0, dst: 1 },
        Op::BorrowExclusive { binding: 1 },
        Op::MutateThroughBorrow { handle: 0 },
        Op::Read { binding: 1 },
        Op::Read { binding: 0 },
        Op::Declare { mutable: false },
        Op::Move { src: 0, dst: 2 },
    ];
    assert_eq!(validate(&trace, RegionRule::LastUse), Verdict::Accepted);
}

#[test]
fn clone_is_legal_while_the_source_is_borrowed() {
    let trace = vec![
        Op::Declare { mutable: true },
        Op::Declare { mutable: false },
        Op::Construct { binding: 0 },
        Op::BorrowExclusive { binding: 0 },
        Op::Clone { src: 0, dst: 1 },
        Op::MutateThroughBorrow { handle: 0 },
    ];
    assert_eq!(validate(&trace, RegionRule::LastUse), Verdict::Accepted);
}

#[test]
fn the_first_refused_operation_decides() {
    let trace = vec![
        Op::Declare { mutable: true },
        Op::Declare { mutable: false },
        Op::Construct { binding: 0 },
        Op::Move { src: 0, dst: 1 },
        Op::Read { binding: 0 },
        Op::Construct { binding: 1 },
        Op::Read { binding: 7 },
    ];
    assert_eq!(validate(&trace, RegionRule::LastUse), rejected(Violation::UseAfterMove, 4, 0, 3));
}

#[test]
fn unknown_binding_is_ill_formed() {
    let ops = vec![
        Op::Read { binding: 1 },
        Op::Construct { binding: 1 },
        Op::Clone { src: 1, dst: 0 },
        Op::Clone { src: 0, dst: 1 },
        Op::Move { src: 1, dst: 0 },
        Op::Move { src: 0, dst: 1 },
        Op::CallByValue { arg: 1, mutable: false },
        Op::BorrowShared { binding: 1 },
        Op::BorrowExclusive { binding: 1 },
    ];
    for op in ops {
        let trace = vec![Op::Declare { mutable: true }, Op::Construct { binding: 0 }, op];
        assert_eq!(validate(&trace, RegionRule::LastUse), Verdict::IllFormed { at: 2 });
    }
}

#[test]
fn reading_an_uninitialized_binding_is_ill_formed() {
    let ops = vec![
        Op::Read { binding: 0 },
        Op::Clone { src: 0, dst: 1 },
        Op::Move { src: 0, dst: 1 },
        Op::CallByValue { arg: 0, mutable: false },
        Op::BorrowShared { binding: 0 },
        Op::BorrowExclusive { binding: 0 },
    ];
    for op in ops {
        let trace = vec![Op::Declare { mutable: true }, Op::Declare { mutable: true }, op];
        assert_eq!(validate(&trace, RegionRule::LastUse), Verdict::IllFormed { at: 2 });
    }
}

#[test]
fn exclusive_borrow_of_an_immutable_binding_is_ill_formed() {
    let trace = vec![
        Op::Declare { mutable: false },
        Op::Construct { binding: 0 },
        Op::BorrowExclusive { binding: 0 },
    ];
    assert_eq!(validate(&trace, RegionRule::LastUse), Verdict::IllFormed { at: 2 });
}

#[test]
fn mutating_through_a_shared_borrow_is_ill_formed() {
    let trace = vec![
        Op::Declare { mutable: true },
        Op::Construct { binding: 0 },
        Op::BorrowShared { binding: 0 },
        Op::MutateThroughBorrow { handle: 0 },
    ];
    assert_eq!(validate(&trace, RegionRule::LastUse), Verdict::IllFormed { at: 3 });
}

#[test]
fn using_a_borrow_that_was_not_taken_is_ill_formed() {
    let trace = vec![
        Op::Declare { mutable: true },
        Op::Construct { binding: 0 },
        Op::ReadThroughBorrow { handle: 0 },
        Op::BorrowShared { binding: 0 },
    ];
    assert_eq!(validate(&trace, RegionRule::LastUse), Verdict::IllFormed { at: 2 });
    let trace = vec![Op::MutateThroughBorrow { handle: usize::MAX }];
    assert_eq!(validate(&trace, RegionRule::LastUse), Verdict::IllFormed { at: 0 });
}

#[test]
fn closing_more_scopes_than_are_open_is_ill_formed() {
    assert_eq!(validate(&vec![Op::EndScope], RegionRule::LastUse), Verdict::Accepted);
    assert_eq!(validate(&vec![Op::EndScope, Op::EndScope], RegionRule::LastUse), Verdict::IllFormed { at: 1 });
    assert_eq!(
        validate(&vec![Op::BeginScope, Op::EndScope, Op::EndScope, Op::EndScope], RegionRule::LastUse),
        Verdict::IllFormed { at: 3 }
    );
}

#[test]
fn declaring_outside_every_scope_is_ill_formed() {
    let trace = vec![Op::EndScope, Op::Declare { mutable: false }];
    assert_eq!(validate(&trace, RegionRule::LastUse), Verdict::IllFormed { at: 1 });
    let trace = vec![Op::EndScope, Op::BeginScope, Op::Declare { mutable: false }];
    assert_eq!(validate(&trace, RegionRule::LastUse), Verdict::Accepted);
}

#[test]
fn many_borrows_in_turn() {
    let mut trace = vec![Op::Declare { mutable: true }, Op::Construct { binding: 0 }];
    for h in 0..200 {
        trace.push(Op::BorrowExclusive { binding: 0 });
        trace.push(Op::MutateThroughBorrow { handle: h });
    }
    assert_eq!(validate(&trace, RegionRule::LastUse), Verdict::Accepted);
    // the first borrow, used once more at the end, is live all along
    trace.push(Op::MutateThroughBorrow { handle: 0 });
    assert_eq!(validate(&trace, RegionRule::LastUse), rejected(Violation::AliasedMutableBorrow, 4, 0, 2));
}

#[test]
fn the_verdict_names_the_binding_in_conflict() {
    // the source of a move
    let trace = vec![
        Op::Declare { mutable: false },
        Op::Declare { mutable: false },
        Op::Declare { mutable: false },
        Op::Construct { binding: 2 },
        Op::Move { src: 2, dst: 1 },
        Op::Move { src: 2, dst: 0 },
    ];
    assert_eq!(
        validate(&trace, RegionRule::LastUse),
        rejected(Violation::UseAfterMove, 5, 2, 4)
    );
    // the destination of a move
    let trace = vec![
        Op::Declare { mutable: false },
        Op::Declare { mutable: false },
        Op::Declare { mutable: false },
        Op::Construct { binding: 2 },
        Op::Move { src: 2, dst: 1 },
        Op::Construct { binding: 0 },
        Op::Move { src: 0, dst: 2 },
    ];
    assert_eq!(
        validate(&trace, RegionRule::LastUse),
        rejected(Violation::UseAfterMove, 6, 2, 4)
    );
    // the referent of the borrow that outlives its scope
    let trace = vec![
        Op::Declare { mutable: false },
        Op::BeginScope,
        Op::Declare { mutable: false },
        Op::Declare { mutable: true },
        Op::Construct { binding: 1 },
        Op::Construct { binding: 2 },
        Op::BorrowShared { binding: 1 },
        Op::ReadThroughBorrow { handle: 0 },
        Op::BorrowExclusive { binding: 2 },
        Op::EndScope,
        Op::MutateThroughBorrow { handle: 1 },
    ];
    assert_eq!(
        validate(&trace, RegionRule::LastUse),
        rejected(Violation::BorrowOutlivesOwner, 9, 2, 8)
    );
}
