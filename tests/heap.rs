use hepha::body_visitor::{BodyVisitor, Location, Warning};
use hepha::condition::SolverStub;
use hepha::expression::{ConstantDomain, Expression, LayoutSource};
use hepha::path::Path;

fn visitor() -> BodyVisitor<SolverStub> {
    BodyVisitor::new(SolverStub {})
}

fn layout(length: u128, source: LayoutSource) -> Expression {
    Expression::HeapBlockLayout { length, alignment: 8, source }
}

fn i128_const(v: i128) -> Expression {
    Expression::CompileTimeConstant(ConstantDomain::I128(v))
}

fn offset_into(block: &Path, right: i128) -> Expression {
    Expression::Offset {
        left: Box::new(Expression::Reference(block.duplicate())),
        right: Box::new(i128_const(right)),
    }
}

#[test]
fn same_site_yields_same_block() {
    let mut bv = visitor();
    bv.current_location = Location { block: 3, statement_index: 1 };
    let (first, first_path) = bv.get_new_heap_block(16, 8, false);
    bv.current_location = Location { block: 4, statement_index: 0 };
    let (other, _) = bv.get_new_heap_block(16, 8, false);
    assert!(!first.same_as(&other));
    bv.current_location = Location { block: 3, statement_index: 1 };
    let (again, again_path) = bv.get_new_heap_block(32, 8, true);
    assert!(first.same_as(&again));
    assert!(first_path.same_as(&again_path));
    let layout_path = Path::new_layout(again_path);
    assert!(bv.current_environment.value_at(&layout_path).unwrap().same_as(&layout(32, LayoutSource::Alloc)));
}

#[test]
fn offset_within_allocated_range() {
    let mut bv = visitor();
    let (_, block) = bv.get_new_heap_block(16, 8, false);
    bv.check_offset(&offset_into(&block, 0));
    bv.check_offset(&offset_into(&block, 16));
    bv.check_offset(&offset_into(&block, 17));
    assert!(bv.buffered_diagnostics.is_empty());
}

#[test]
fn offset_outside_allocated_range() {
    let mut bv = visitor();
    let (_, block) = bv.get_new_heap_block(16, 8, false);
    bv.check_offset(&offset_into(&block, 18));
    assert_eq!(bv.buffered_diagnostics, vec![Warning::OffsetOutOfRange]);
    assert_eq!(
        bv.buffered_diagnostics[0].message(),
        "effective offset is outside allocated range"
    );
    bv.check_offset(&offset_into(&block, -1));
    assert_eq!(bv.buffered_diagnostics.len(), 2);
}

#[test]
fn offset_on_unreachable_path_is_not_reported() {
    let mut bv = visitor();
    let (_, block) = bv.get_new_heap_block(16, 8, false);
    bv.current_environment.entry_condition = Expression::CompileTimeConstant(ConstantDomain::Bool(false));
    bv.check_offset(&offset_into(&block, 40));
    assert!(bv.buffered_diagnostics.is_empty());
}

#[test]
fn reallocation_clears_zeroed_flag() {
    let mut bv = visitor();
    let (_, block) = bv.get_new_heap_block(8, 8, true);
    let pointer = Path::Local(1);
    let element = Path::new_field(block.duplicate(), 0);
    bv.current_environment.insert(pointer.duplicate(), Expression::Reference(block.duplicate()));
    bv.current_environment.insert(Path::Local(2), Expression::Reference(element));
    bv.current_environment.insert(Path::Local(3), Expression::Reference(Path::Local(9)));
    let layout_path = Path::new_layout(block.duplicate());
    bv.transfer_layout_effect(
        layout_path,
        layout(16, LayoutSource::ReAlloc),
        &layout(8, LayoutSource::Alloc),
    );
    assert!(bv.buffered_diagnostics.is_empty());
    let cleared = Path::HeapBlock { abstract_address: 0, is_zeroed: false };
    match bv.current_environment.value_at(&pointer) {
        Some(Expression::Reference(p)) => assert!(p.same_as(&cleared)),
        _ => panic!("pointer lost"),
    }
    match bv.current_environment.value_at(&Path::Local(2)) {
        Some(Expression::Reference(p)) => assert!(p.same_as(&Path::new_field(cleared.duplicate(), 0))),
        _ => panic!("element pointer lost"),
    }
    match bv.current_environment.value_at(&Path::Local(3)) {
        Some(Expression::Reference(p)) => assert!(p.same_as(&Path::Local(9))),
        _ => panic!("unrelated pointer lost"),
    }
}

#[test]
fn reallocation_with_other_layout_is_reported() {
    let mut bv = visitor();
    let (_, block) = bv.get_new_heap_block(8, 8, true);
    bv.transfer_layout_effect(
        Path::new_layout(block),
        layout(16, LayoutSource::ReAlloc),
        &layout(4, LayoutSource::ReAlloc),
    );
    assert_eq!(
        bv.buffered_diagnostics,
        vec![Warning::InconsistentLayout { possibly: false, reallocates: true }]
    );
}

#[test]
fn double_free() {
    let mut bv = visitor();
    let (_, block) = bv.get_new_heap_block(8, 8, false);
    let field = Path::new_field(block.duplicate(), 0);
    bv.current_environment.insert(field.duplicate(), i128_const(5));
    bv.transfer_layout_effect(
        Path::new_layout(block.duplicate()),
        layout(8, LayoutSource::DeAlloc),
        &Expression::Top,
    );
    assert!(bv.buffered_diagnostics.is_empty());
    assert!(bv.current_environment.value_at(&field).is_none());
    bv.transfer_layout_effect(
        Path::new_layout(block.duplicate()),
        layout(8, LayoutSource::DeAlloc),
        &Expression::Top,
    );
    assert_eq!(bv.buffered_diagnostics, vec![Warning::AlreadyDeallocated]);
    assert_eq!(
        bv.buffered_diagnostics[0].message(),
        "the pointer points to memory that has already been deallocated"
    );
    bv.transfer_layout_effect(
        Path::new_layout(block),
        layout(4, LayoutSource::DeAlloc),
        &Expression::Top,
    );
    assert_eq!(
        bv.buffered_diagnostics,
        vec![
            Warning::AlreadyDeallocated,
            Warning::AlreadyDeallocated,
            Warning::InconsistentLayout { possibly: false, reallocates: false },
        ]
    );
    assert_eq!(
        bv.buffered_diagnostics[2].message(),
        "deallocates the pointer with layout information inconsistent with the allocation"
    );
}

#[test]
fn inconsistent_layout_under_unknown_entry_is_possible() {
    let mut bv = visitor();
    bv.current_environment.entry_condition = Expression::Variable(Path::Parameter(1));
    bv.check_for_layout_consistency(&layout(8, LayoutSource::Alloc), &layout(4, LayoutSource::DeAlloc));
    assert_eq!(
        bv.buffered_diagnostics,
        vec![Warning::InconsistentLayout { possibly: true, reallocates: false }]
    );
}
