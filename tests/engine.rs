use hepha::annotations::{TagPropagation, TAG_PROPAGATION_ALL};
use hepha::body_visitor::Location;
use hepha::tags::Tag;
use hepha::transfer::PromotedBody;
use hepha::block_order::get_sorted_block_indices;
use hepha::body_visitor::{BodyVisitor, Warning};
use hepha::condition::SolverStub;
use hepha::environment::Environment;
use hepha::expression::{ConstantDomain, Expression, LayoutSource};
use hepha::join::{get_initial_state_from_predecessors, PredecessorState};
use hepha::layout::get_field_leaves;
use hepha::path::{Path, PathSelector};
use hepha::types::{is_transparent_wrapper, IrType, TypeList, TypeVisitor, VariantList};

fn u8_type() -> IrType {
    IrType::Int { bits: 8, signed: false }
}

fn u16_type() -> IrType {
    IrType::Int { bits: 16, signed: false }
}

fn usize_type() -> IrType {
    IrType::Int { bits: 64, signed: false }
}

fn u128_const(v: u128) -> Expression {
    Expression::CompileTimeConstant(ConstantDomain::U128(v))
}

fn bool_const(b: bool) -> Expression {
    Expression::CompileTimeConstant(ConstantDomain::Bool(b))
}

fn same(a: &Option<IrType>, b: &IrType) -> bool {
    match a {
        Some(t) => type_eq(t, b),
        None => false,
    }
}

fn type_eq(a: &IrType, b: &IrType) -> bool {
    format!("{:?}", kind(a)) == format!("{:?}", kind(b))
}

fn kind(t: &IrType) -> String {
    match t {
        IrType::Bool => "bool".to_string(),
        IrType::Char => "char".to_string(),
        IrType::Int { bits, signed } => format!("int{}{}", bits, signed),
        IrType::Str => "str".to_string(),
        IrType::Ref(e) => format!("&{}", kind(e)),
        IrType::RawPtr(e) => format!("*{}", kind(e)),
        IrType::Boxed(e) => format!("box {}", kind(e)),
        IrType::Array(e, n) => format!("[{};{}]", kind(e), n),
        IrType::Slice(e) => format!("[{}]", kind(e)),
        IrType::Tuple(ts) => format!("({})", list(ts)),
        IrType::Struct { fields, transparent } => format!("struct{} {{{}}}", transparent, list(fields)),
        IrType::Union(ts) => format!("union {{{}}}", list(ts)),
        IrType::Enum { .. } => "enum".to_string(),
        IrType::Param(k) => format!("T{}", k),
        IrType::Opaque(k) => format!("opaque{}", k),
    }
}

fn list(ts: &TypeList) -> String {
    match ts {
        TypeList::Nil => String::new(),
        TypeList::Cons(t, rest) => format!("{},{}", kind(t), list(rest)),
    }
}

#[test]
fn blocks_follow_their_predecessors() {
    // 0 -> 1 -> 2 -> 1 (loop), 1 -> 3
    let predecessors = vec![vec![], vec![0, 2], vec![1], vec![1]];
    let mut dominates = vec![vec![false; 4]; 4];
    for b in 0..4 {
        dominates[0][b] = true;
        dominates[b][b] = true;
    }
    dominates[1][2] = true;
    dominates[1][3] = true;
    let (order, anchors) = get_sorted_block_indices(&predecessors, &dominates);
    assert_eq!(order, vec![0, 1, 2, 3]);
    assert_eq!(anchors, vec![false, true, false, false]);
}

#[test]
fn blocks_sorted_when_listed_out_of_order() {
    // 0 -> 2 -> 1
    let predecessors = vec![vec![], vec![2], vec![0]];
    let mut dominates = vec![vec![false; 3]; 3];
    for b in 0..3 {
        dominates[0][b] = true;
        dominates[b][b] = true;
    }
    dominates[2][1] = true;
    let (order, anchors) = get_sorted_block_indices(&predecessors, &dominates);
    assert_eq!(order, vec![0, 2, 1]);
    assert_eq!(anchors, vec![false, false, false]);
}

#[test]
fn predecessor_states_join_under_their_conditions() {
    let x = Path::Local(1);
    let y = Path::Local(2);
    let c = Expression::Variable(Path::Local(9));
    let not_c = Expression::logical_not(c.duplicate());
    let mut a = Environment::new();
    a.insert(x.duplicate(), u128_const(1));
    a.insert(y.duplicate(), u128_const(5));
    let mut b = Environment::new();
    b.insert(x.duplicate(), u128_const(2));
    b.insert(y.duplicate(), u128_const(5));
    let first = Environment::new();
    let joined = get_initial_state_from_predecessors(
        &first,
        &vec![pred(&a, Some(c.duplicate()), false), pred(&b, Some(not_c.duplicate()), false)], BLOCK,
        0,
        false,
    );
    match joined.value_at(&x) {
        Some(Expression::ConditionalExpression { condition, consequent, alternate }) => {
            assert!(condition.same_as(&not_c));
            assert!(consequent.same_as(&u128_const(2)));
            assert!(alternate.same_as(&u128_const(1)));
        },
        _ => panic!("expected a conditional value"),
    }
    assert!(joined.value_at(&y).unwrap().same_as(&u128_const(5)));
    assert!(joined.exit_condition(BLOCK).is_none());
    assert!(matches!(joined.entry_condition, Expression::Or { .. }));

    let single = get_initial_state_from_predecessors(
        &first,
        &vec![pred(&a, Some(bool_const(false)), false), pred(&b, Some(c.duplicate()), false)], BLOCK,
        0,
        false,
    );
    assert!(single.value_at(&x).unwrap().same_as(&u128_const(2)));
    assert!(single.entry_condition.same_as(&c));

    let none = get_initial_state_from_predecessors(&first, &vec![pred(&a, Some(bool_const(false)), false)], BLOCK, 0, false);
    assert!(none.entry_condition.same_as(&bool_const(false)));
    assert!(none.value_at(&x).is_none());

    // A loop head: the first iteration takes only the entry edge, later ones only the back edge.
    let preds = vec![pred(&a, Some(bool_const(true)), false), pred(&b, Some(c.duplicate()), true)];
    let first_iteration = get_initial_state_from_predecessors(&first, &preds, BLOCK, 1, false);
    assert!(first_iteration.value_at(&x).unwrap().same_as(&u128_const(1)));
    let second_iteration = get_initial_state_from_predecessors(&first, &preds, BLOCK, 2, false);
    assert!(second_iteration.value_at(&x).unwrap().same_as(&u128_const(2)));
    assert!(second_iteration.entry_condition.same_as(&c));

    // A cleanup block starts from the pre-terminator state of an unvisited predecessor.
    let mut unwinding = pred(&b, None, false);
    unwinding.terminator_state = a.duplicate();
    let cleanup = get_initial_state_from_predecessors(&first, &vec![unwinding], BLOCK, 0, true);
    assert!(cleanup.value_at(&x).unwrap().same_as(&u128_const(1)));
    assert!(cleanup.entry_condition.same_as(&bool_const(true)));
    let not_cleanup = get_initial_state_from_predecessors(&first, &vec![pred(&b, None, false)], BLOCK, 0, false);
    assert!(not_cleanup.entry_condition.same_as(&bool_const(false)));
}

// The successor block the predecessors below flow into.
const BLOCK: u64 = 7;

fn pred(state: &Environment, exit_condition: Option<Expression>, is_loop_back: bool) -> PredecessorState {
    let mut exit_state = state.duplicate();
    if let Some(c) = exit_condition {
        exit_state.set_exit_condition(BLOCK, c);
    }
    exit_state.set_exit_condition(BLOCK + 1, bool_const(true));
    PredecessorState {
        exit_state,
        is_loop_back,
        terminator_state: Environment::new(),
    }
}

#[test]
fn conditional_join_fills_missing_side_with_unknown() {
    let x = Path::Local(1);
    let mut a = Environment::new();
    a.insert(x.duplicate(), u128_const(1));
    let b = Environment::new();
    let c = Expression::Variable(Path::Local(9));
    let j = a.conditional_join(&b, &c, &bool_const(true));
    match j.value_at(&x) {
        Some(Expression::ConditionalExpression { alternate, .. }) => {
            assert!(alternate.same_as(&Expression::Variable(x.duplicate())))
        },
        _ => panic!("expected a conditional value"),
    }
    assert!(j.entry_condition.same_as(&bool_const(true)));
}

fn pair_struct() -> IrType {
    IrType::Struct {
        fields: Box::new(TypeList::from_vec(vec![u8_type(), u8_type()])),
        transparent: false,
    }
}

#[test]
fn path_types_follow_selectors() {
    let ctx = TypeVisitor {
        local_types: vec![
            IrType::Bool,
            IrType::Ref(Box::new(pair_struct())),
            IrType::Ref(Box::new(IrType::Slice(Box::new(u16_type())))),
            IrType::Param(0),
        ],
        generic_arguments: vec![IrType::Char],
    };
    let field = Path::new_field(Path::new_deref(Path::Parameter(1)), 1);
    assert!(same(&ctx.get_path_rustc_type(&field), &u8_type()));
    assert!(same(&ctx.get_path_rustc_type(&Path::Result), &IrType::Bool));
    let slice_ptr = Path::new_field(Path::Parameter(2), 0);
    assert!(same(&ctx.get_path_rustc_type(&slice_ptr), &IrType::RawPtr(Box::new(u16_type()))));
    let slice_len = Path::new_field(Path::Parameter(2), 1);
    assert!(same(&ctx.get_path_rustc_type(&slice_len), &usize_type()));
    let element = Path::new_qualified(Path::new_deref(Path::Parameter(2)), PathSelector::Index(3));
    assert!(same(&ctx.get_path_rustc_type(&element), &u16_type()));
    assert!(same(&ctx.get_path_rustc_type(&Path::Local(3)), &IrType::Char));
    assert!(ctx.get_path_rustc_type(&Path::Local(7)).is_none());
    assert!(ctx.get_path_rustc_type(&Path::new_deref(Path::Result)).is_none());
}

#[test]
fn projections_of_unions_and_enums() {
    let tv = TypeVisitor { local_types: vec![], generic_arguments: vec![] };
    let u = IrType::Union(Box::new(TypeList::from_vec(vec![u16_type(), u8_type()])));
    let sel = PathSelector::UnionField { case_index: 1, num_cases: 2 };
    assert!(same(&tv.get_type_for_projection_element(&u, &sel), &u8_type()));
    let e = IrType::Enum {
        variants: Box::new(VariantList::Cons(
            Box::new(TypeList::Nil),
            Box::new(VariantList::Cons(
                Box::new(TypeList::from_vec(vec![IrType::Char])),
                Box::new(VariantList::Nil),
            )),
        )),
        discriminant_bits: 8,
        discriminant_signed: false,
    };
    let down = tv.get_type_for_projection_element(&e, &PathSelector::Downcast { variant: 1 });
    assert!(same(&down, &IrType::Tuple(Box::new(TypeList::from_vec(vec![IrType::Char])))));
    assert!(same(&tv.get_type_for_projection_element(&e, &PathSelector::Discriminant), &u8_type()));
    assert!(same(&tv.get_type_for_projection_element(&e, &PathSelector::TagField), &IrType::Int { bits: 8, signed: true }));
    let signed_enum = IrType::Enum { variants: Box::new(VariantList::Nil), discriminant_bits: 8, discriminant_signed: true };
    assert!(same(&tv.get_type_for_projection_element(&signed_enum, &PathSelector::Discriminant), &IrType::Int { bits: 8, signed: true }));
}

#[test]
fn transparent_wrappers_and_specialization() {
    let tv = TypeVisitor { local_types: vec![], generic_arguments: vec![] };
    let wrapper = IrType::Struct {
        fields: Box::new(TypeList::from_vec(vec![IrType::Struct {
            fields: Box::new(TypeList::from_vec(vec![u16_type()])),
            transparent: true,
        }])),
        transparent: true,
    };
    assert!(is_transparent_wrapper(&wrapper));
    assert!(!is_transparent_wrapper(&pair_struct()));
    assert!(type_eq(&tv.remove_transparent_wrapper(&wrapper), &u16_type()));
    let generic = IrType::Ref(Box::new(IrType::Array(Box::new(IrType::Param(1)), 4)));
    let s = tv.specialize_type(&generic, &vec![IrType::Bool, u8_type()]);
    assert!(type_eq(&s, &IrType::Ref(Box::new(IrType::Array(Box::new(u8_type()), 4)))));
    assert!(tv.is_slice_pointer(&IrType::Ref(Box::new(IrType::Str))));
    assert!(!tv.is_slice_pointer(&IrType::Ref(Box::new(u8_type()))));
    assert!(type_eq(&tv.get_dereferenced_type(&IrType::Boxed(Box::new(IrType::Char))), &IrType::Char));
    assert!(type_eq(&tv.get_dereferenced_type(&IrType::Char), &IrType::Char));
    assert!(same(&tv.get_element_type(&IrType::Str), &u8_type()));
}

#[test]
fn leaves_in_memory_order() {
    let nested = IrType::Struct {
        fields: Box::new(TypeList::from_vec(vec![pair_struct(), IrType::Array(Box::new(u16_type()), 2)])),
        transparent: false,
    };
    let root = Path::Local(1);
    let leaves = get_field_leaves(&root, &nested).unwrap();
    assert_eq!(leaves.len(), 4);
    assert!(leaves[0].0.same_as(&Path::new_field(Path::new_field(root.duplicate(), 0), 0)));
    assert_eq!(leaves[1].1, 8);
    assert!(leaves[2].0.same_as(&Path::new_qualified(Path::new_field(root.duplicate(), 1), PathSelector::Index(0))));
    assert_eq!(leaves[3].1, 16);
    assert!(get_field_leaves(&root, &IrType::Str).is_none());
}

#[test]
fn transmute_struct_into_integer() {
    let mut bv = BodyVisitor::new(SolverStub {});
    let s = Path::Local(1);
    let t = Path::Local(2);
    bv.current_environment.insert(Path::new_field(s.duplicate(), 0), u128_const(0xAB));
    bv.current_environment.insert(Path::new_field(s.duplicate(), 1), u128_const(0xCD));
    bv.copy_and_transmute(&s, &pair_struct(), &t, &u16_type());
    assert!(bv.current_environment.value_at(&t).unwrap().same_as(&u128_const(0xCDAB)));
    assert!(bv.buffered_diagnostics.is_empty());
    bv.copy_and_transmute(&t, &u8_type(), &s, &IrType::Int { bits: 32, signed: false });
    assert_eq!(bv.buffered_diagnostics, vec![Warning::UnionNotFullyInitialized]);
}

#[test]
fn transmute_of_unknown_source_is_symbolic() {
    let mut bv = BodyVisitor::new(SolverStub {});
    let s = Path::Local(1);
    let t = Path::Local(2);
    bv.current_environment.insert(t.duplicate(), u128_const(3));
    bv.copy_and_transmute(&s, &u16_type(), &t, &u16_type());
    let whole = Expression::ShiftLeft {
        operand: Box::new(Expression::UnsignedModulo {
            operand: Box::new(Expression::UnsignedShiftRight {
                operand: Box::new(Expression::Variable(s.duplicate())),
                amount: 0,
            }),
            bits: 16,
        }),
        amount: 0,
    };
    assert!(bv.current_environment.value_at(&t).unwrap().same_as(&whole));
    // A symbolic u16 written through one case of a union puts its low byte
    // in the u8 case, and its two bytes in the (u8, u8) case.
    let types = TypeVisitor {
        local_types: vec![
            IrType::Bool,
            IrType::Union(Box::new(TypeList::from_vec(vec![
                u16_type(),
                IrType::Tuple(Box::new(TypeList::from_vec(vec![u8_type(), u8_type()]))),
                u8_type(),
            ]))),
        ],
        generic_arguments: vec![],
    };
    let u = Path::Local(1);
    let x = Path::new_union_field(u.duplicate(), 0, 3);
    let v = Expression::Variable(Path::Parameter(1));
    bv.update_value_at(&types, x.duplicate(), v.duplicate());
    assert!(bv.current_environment.value_at(&x).unwrap().same_as(&v));
    let low = Expression::ShiftLeft {
        operand: Box::new(Expression::UnsignedModulo {
            operand: Box::new(Expression::UnsignedShiftRight { operand: Box::new(v.duplicate()), amount: 0 }),
            bits: 8,
        }),
        amount: 0,
    };
    let high = Expression::ShiftLeft {
        operand: Box::new(Expression::UnsignedModulo {
            operand: Box::new(Expression::UnsignedShiftRight { operand: Box::new(v.duplicate()), amount: 8 }),
            bits: 8,
        }),
        amount: 0,
    };
    let z = Path::new_union_field(u.duplicate(), 2, 3);
    assert!(bv.current_environment.value_at(&z).unwrap().same_as(&low));
    let y = Path::new_union_field(u, 1, 3);
    assert!(bv.current_environment.value_at(&Path::new_field(y.duplicate(), 0)).unwrap().same_as(&low));
    assert!(bv.current_environment.value_at(&Path::new_field(y, 1)).unwrap().same_as(&high));
}

#[test]
fn copy_and_move_elements() {
    let mut bv = BodyVisitor::new(SolverStub {});
    let s = Path::Local(1);
    let t = Path::Local(2);
    let sf = Path::new_field(s.duplicate(), 0);
    let tf = Path::new_field(t.duplicate(), 0);
    let stale = Path::new_field(t.duplicate(), 5);
    bv.current_environment.insert(sf.duplicate(), u128_const(7));
    bv.current_environment.insert(stale.duplicate(), u128_const(1));
    let types = TypeVisitor { local_types: vec![], generic_arguments: vec![] };
    bv.copy_or_move_elements(&types, &t, &s, &u16_type(), false);
    assert!(bv.current_environment.value_at(&tf).unwrap().same_as(&u128_const(7)));
    assert!(bv.current_environment.value_at(&sf).is_some());
    assert!(bv.current_environment.value_at(&stale).is_none());
    let u = Path::Local(3);
    bv.copy_or_move_elements(&types, &u, &t, &u16_type(), true);
    assert!(bv.current_environment.value_at(&Path::new_field(u, 0)).unwrap().same_as(&u128_const(7)));
    assert!(bv.current_environment.value_at(&tf).is_none());
}

#[test]
fn promoted_reference_is_copied_to_heap() {
    let mut exit = Environment::new();
    let local = Path::Local(1);
    exit.insert(Path::new_field(local.duplicate(), 0), u128_const(11));
    exit.insert(Path::new_field(local.duplicate(), 1), u128_const(22));
    exit.insert(Path::Local(2), u128_const(99));
    let mut bv = BodyVisitor::new(SolverStub {});
    let root = Path::PromotedConstant(0);
    let block = bv.promote_reference(root.duplicate(), &exit, &local, 16, 8, false);
    assert!(matches!(block, Path::HeapBlock { .. }));
    match bv.current_environment.value_at(&root) {
        Some(Expression::Reference(p)) => assert!(p.same_as(&block)),
        _ => panic!("promoted root not bound"),
    }
    assert!(bv.current_environment.value_at(&Path::new_field(block.duplicate(), 0)).unwrap().same_as(&u128_const(11)));
    assert!(bv.current_environment.value_at(&Path::new_field(block.duplicate(), 1)).unwrap().same_as(&u128_const(22)));
    assert!(bv.current_environment.value_at(&Path::Local(2)).is_none());
    assert!(bv.current_environment.value_at(&Path::new_layout(block.duplicate())).is_some());
}

#[test]
fn promoted_slice_pointer_keeps_its_length() {
    let mut exit = Environment::new();
    let local = Path::Local(1);
    exit.insert(Path::new_qualified(local.duplicate(), PathSelector::Index(0)), u128_const(5));
    exit.insert(Path::new_field(local.duplicate(), 1), u128_const(1));
    let mut bv = BodyVisitor::new(SolverStub {});
    let root = Path::PromotedConstant(3);
    let block = bv.promote_reference(root.duplicate(), &exit, &local, 8, 8, true);
    match bv.current_environment.value_at(&Path::new_field(root.duplicate(), 0)) {
        Some(Expression::Reference(p)) => assert!(p.same_as(&block)),
        _ => panic!("pointer field not bound"),
    }
    assert!(bv.current_environment.value_at(&Path::new_field(root, 1)).unwrap().same_as(&u128_const(1)));
    assert!(bv.current_environment.value_at(&Path::new_qualified(block, PathSelector::Index(0))).unwrap().same_as(&u128_const(5)));
}

#[test]
fn lookup_names_unknowns_by_path() {
    let mut bv = BodyVisitor::new(SolverStub {});
    let r = Path::Local(1);
    bv.current_environment.insert(r.duplicate(), Expression::Reference(Path::Local(4)));
    bv.current_environment.insert(Path::Local(4), u128_const(8));
    assert!(bv.lookup_path_and_refine_result(&Path::new_deref(r), &u16_type()).same_as(&u128_const(8)));
    let p = Path::new_field(Path::Parameter(1), 2);
    assert!(bv.lookup_path_and_refine_result(&p, &u16_type()).same_as(&Expression::InitialParameterValue(p.duplicate())));
    let l = Path::Local(6);
    assert!(bv.lookup_path_and_refine_result(&l, &u16_type()).same_as(&Expression::Variable(l.duplicate())));
    let computed = Path::Computed(Box::new(u128_const(5)));
    assert!(bv.lookup_path_and_refine_result(&computed, &u16_type()).same_as(&u128_const(5)));
    let (_, block) = bv.get_new_heap_block(8, 8, true);
    let cell = Path::new_qualified(block, PathSelector::Index(2));
    assert!(bv.lookup_path_and_refine_result(&cell, &u16_type()).same_as(&u128_const(0)));
    let signed = IrType::Int { bits: 32, signed: true };
    assert!(bv.lookup_path_and_refine_result(&cell, &signed).same_as(&Expression::CompileTimeConstant(ConstantDomain::I128(0))));
}

#[test]
fn callee_effects_land_in_caller() {
    let mut bv = BodyVisitor::new(SolverStub {});
    let (_, block) = bv.get_new_heap_block(8, 8, false);
    let pointer = Path::Local(1);
    bv.current_environment.insert(pointer.duplicate(), Expression::Reference(block.duplicate()));
    bv.current_environment.insert(Path::new_field(block.duplicate(), 0), u128_const(4));
    let pre = bv.current_environment.duplicate();
    let effects = vec![
        (Path::new_field(Path::Result, 0), u128_const(5)),
        (Path::Parameter(2), u128_const(6)),
        (
            Path::new_layout(Path::new_deref(Path::Result)),
            Expression::HeapBlockLayout { length: 8, alignment: 8, source: LayoutSource::DeAlloc },
        ),
    ];
    let types = TypeVisitor { local_types: vec![], generic_arguments: vec![] };
    bv.transfer_and_refine(&types, &effects, &pointer, &Path::Result, &pre);
    assert!(bv.current_environment.value_at(&Path::new_field(pointer.duplicate(), 0)).unwrap().same_as(&u128_const(5)));
    assert!(bv.current_environment.value_at(&Path::Parameter(2)).is_none());
    assert!(bv.current_environment.value_at(&Path::new_field(block.duplicate(), 0)).is_none());
    assert!(bv.buffered_diagnostics.is_empty());
    bv.transfer_and_refine(&types, &effects, &pointer, &Path::Result, &pre);
    assert_eq!(bv.buffered_diagnostics, vec![Warning::AlreadyDeallocated]);
}

#[test]
fn callee_tag_field_effects_tag_the_caller_value() {
    let tag = Tag { def_id: 6, prop_set: TAG_PROPAGATION_ALL };
    let types = TypeVisitor { local_types: vec![IrType::Bool, u16_type()], generic_arguments: vec![] };
    let mut bv = BodyVisitor::new(SolverStub {});
    let target = Path::Local(1);
    bv.current_environment.insert(target.duplicate(), u128_const(3));
    bv.current_environment.insert(Path::Local(4), u128_const(8));
    let pre = bv.current_environment.duplicate();
    let effects = vec![
        (Path::new_tag_field(Path::Result), Expression::Tagged { tag, operand: Box::new(u128_const(0)) }),
        (Path::Local(4), Expression::Variable(Path::Local(4))),
    ];
    bv.transfer_and_refine(&types, &effects, &target, &Path::Result, &pre);
    assert!(bv.current_environment.value_at(&target).unwrap().has_tag(&tag));
    assert!(bv.current_environment.value_at(&Path::Local(4)).is_some());
    let own = vec![(Path::Result, Expression::Variable(Path::Local(1)))];
    bv.transfer_and_refine(&types, &own, &target, &Path::Result, &pre);
    assert!(bv.current_environment.value_at(&target).is_none());
}

fn array_with_length(bv: &mut BodyVisitor<SolverStub>, root: &Path, len: u64) {
    bv.current_environment.insert(Path::new_field(root.duplicate(), 1), u128_const(len as u128));
    for i in 0..len {
        bv.current_environment.insert(
            Path::new_qualified(root.duplicate(), PathSelector::Index(i)),
            u128_const(100 + i as u128),
        );
    }
}

#[test]
fn constant_index_patterns_expand() {
    let mut bv = BodyVisitor::new(SolverStub {});
    let a = Path::Local(1);
    array_with_length(&mut bv, &a, 5);
    let t = Path::Local(2);
    let from_end = Path::new_qualified(a.duplicate(), PathSelector::ConstantIndex { offset: 1, from_end: true });
    assert!(bv.try_expand_source_pattern(&t, &from_end));
    assert!(bv.current_environment.value_at(&t).unwrap().same_as(&u128_const(104)));
    let plain = Path::new_qualified(a.duplicate(), PathSelector::ConstantIndex { offset: 2, from_end: false });
    assert!(bv.try_expand_source_pattern(&t, &plain));
    assert!(bv.current_environment.value_at(&t).unwrap().same_as(&u128_const(102)));
    let too_far = Path::new_qualified(a.duplicate(), PathSelector::ConstantIndex { offset: 9, from_end: true });
    assert!(!bv.try_expand_source_pattern(&t, &too_far));
    let unknown = Path::new_qualified(Path::Local(7), PathSelector::ConstantIndex { offset: 0, from_end: true });
    assert!(!bv.try_expand_source_pattern(&t, &unknown));
    assert!(!bv.try_expand_source_pattern(&t, &a));
}

#[test]
fn constant_slice_patterns_expand() {
    let mut bv = BodyVisitor::new(SolverStub {});
    let a = Path::Local(1);
    array_with_length(&mut bv, &a, 5);
    let t = Path::Local(2);
    let slice = Path::new_qualified(a.duplicate(), PathSelector::ConstantSlice { from: 1, to: 1, from_end: true });
    assert!(bv.try_expand_source_pattern(&t, &slice));
    for i in 0..3u64 {
        let e = Path::new_qualified(t.duplicate(), PathSelector::Index(i));
        assert!(bv.current_environment.value_at(&e).unwrap().same_as(&u128_const(101 + i as u128)));
    }
    assert!(bv.current_environment.value_at(&Path::new_qualified(t.duplicate(), PathSelector::Index(3))).is_none());
    let backwards = Path::new_qualified(a.duplicate(), PathSelector::ConstantSlice { from: 4, to: 2, from_end: false });
    assert!(!bv.try_expand_source_pattern(&t, &backwards));
}

#[test]
fn back_edge_target_is_anchor_even_when_listed_late() {
    // 0 -> 2 -> 1 -> 2: block 2 heads the loop though block 1 comes first.
    let predecessors = vec![vec![], vec![2], vec![0, 1]];
    let mut dominates = vec![vec![false; 3]; 3];
    for b in 0..3 {
        dominates[0][b] = true;
        dominates[b][b] = true;
    }
    dominates[2][1] = true;
    let (order, anchors) = get_sorted_block_indices(&predecessors, &dominates);
    assert_eq!(order, vec![0, 2, 1]);
    assert_eq!(anchors, vec![false, false, true]);
}

#[test]
fn update_value_at_expands_slices_and_unions() {
    let union_type = IrType::Union(Box::new(TypeList::from_vec(vec![u16_type(), u8_type()])));
    let types = TypeVisitor { local_types: vec![IrType::Bool, union_type], generic_arguments: vec![] };
    let mut bv = BodyVisitor::new(SolverStub {});
    let u = Path::Local(1);
    let wide = Path::new_union_field(u.duplicate(), 0, 2);
    let narrow = Path::new_union_field(u.duplicate(), 1, 2);
    bv.update_value_at(&types, narrow.duplicate(), u128_const(0x7F));
    assert!(bv.current_environment.value_at(&narrow).unwrap().same_as(&u128_const(0x7F)));
    assert!(bv.current_environment.value_at(&wide).is_none());
    assert_eq!(bv.buffered_diagnostics, vec![Warning::UnionNotFullyInitialized]);
    bv.update_value_at(&types, wide.duplicate(), u128_const(0x1234));
    assert!(bv.current_environment.value_at(&wide).unwrap().same_as(&u128_const(0x1234)));
    assert!(bv.current_environment.value_at(&narrow).unwrap().same_as(&u128_const(0x34)));

    let a = Path::Local(5);
    bv.update_value_at(&types, Path::new_qualified(a.duplicate(), PathSelector::Slice(3)), u128_const(9));
    for i in 0..3u64 {
        let e = Path::new_qualified(a.duplicate(), PathSelector::Index(i));
        assert!(bv.current_environment.value_at(&e).unwrap().same_as(&u128_const(9)));
    }
    assert!(bv.current_environment.value_at(&Path::new_qualified(a.duplicate(), PathSelector::Index(3))).is_none());
    bv.update_value_at(&types, Path::Local(6), u128_const(4));
    assert!(bv.current_environment.value_at(&Path::Local(6)).unwrap().same_as(&u128_const(4)));
}

#[test]
fn promoted_constants_are_materialized() {
    let mut by_value = Environment::new();
    by_value.insert(Path::new_field(Path::Result, 0), u128_const(3));
    let mut by_reference = Environment::new();
    by_reference.insert(Path::Result, Expression::Reference(Path::Local(1)));
    by_reference.insert(Path::new_field(Path::Local(1), 0), u128_const(7));
    let bodies = vec![
        PromotedBody { exit_environment: by_value, location: Location { block: 0, statement_index: 0 }, size: 8, alignment: 8, slice_pointer: false },
        PromotedBody { exit_environment: by_reference, location: Location { block: 0, statement_index: 1 }, size: 8, alignment: 8, slice_pointer: false },
    ];
    let mut bv = BodyVisitor::new(SolverStub {});
    bv.promote_constants(&bodies);
    let first = Path::PromotedConstant(0);
    assert!(bv.current_environment.value_at(&Path::new_field(first, 0)).unwrap().same_as(&u128_const(3)));
    match bv.current_environment.value_at(&Path::PromotedConstant(1)) {
        Some(Expression::Reference(block)) => {
            assert!(matches!(block, Path::HeapBlock { .. }));
            assert!(bv.current_environment.value_at(&Path::new_field(block.duplicate(), 0)).unwrap().same_as(&u128_const(7)));
        },
        _ => panic!("promoted reference not bound"),
    }
    assert_eq!(bv.current_location, Location { block: 0, statement_index: 0 });
}

#[test]
fn tag_fields_are_canonical_and_not_tagged_as_components() {
    let mut bv = BodyVisitor::new(SolverStub {});
    bv.current_environment.insert(Path::Local(1), Expression::Reference(Path::Local(2)));
    let (tf, _) = bv.extract_tag_field_of_non_scalar_value_at(&Path::new_deref(Path::Local(1)), &IrType::Tuple(Box::new(TypeList::Nil)));
    assert!(tf.same_as(&Path::new_tag_field(Path::Local(2))));
    // For a reference, the tag field is that of the value it refers to.
    let (tf, _) = bv.extract_tag_field_of_non_scalar_value_at(&Path::Local(1), &IrType::Ref(Box::new(IrType::Tuple(Box::new(TypeList::Nil)))));
    assert!(tf.same_as(&Path::new_tag_field(Path::Local(2))));

    let tag = Tag { def_id: 1, prop_set: TAG_PROPAGATION_ALL };
    assert!(tag.is_propagated_by(TagPropagation::SubComponent));
    let s = Path::Local(3);
    let nested = Path::new_tag_field(Path::new_field(s.duplicate(), 0));
    bv.current_environment.insert(nested.duplicate(), u128_const(0));
    bv.attach_tag_to_value_at_path(tag, &s, &IrType::Tuple(Box::new(TypeList::Nil)));
    assert!(!bv.current_environment.value_at(&nested).unwrap().has_tag(&tag));
    assert!(bv.current_environment.value_at(&Path::new_tag_field(s)).unwrap().has_tag(&tag));
}

#[test]
fn copied_children_land_on_canonical_paths() {
    let mut bv = BodyVisitor::new(SolverStub {});
    let types = TypeVisitor { local_types: vec![], generic_arguments: vec![] };
    let s = Path::Local(1);
    let t = Path::Local(2);
    bv.current_environment.insert(Path::new_deref(Path::new_field(s.duplicate(), 0)), u128_const(5));
    bv.current_environment.insert(Path::new_field(t.duplicate(), 0), Expression::Reference(Path::Local(8)));
    bv.copy_or_move_elements(&types, &t, &s, &u16_type(), false);
    assert!(bv.current_environment.value_at(&Path::Local(8)).unwrap().same_as(&u128_const(5)));
}

#[test]
fn lookup_of_computed_path_is_its_value() {
    let mut bv = BodyVisitor::new(SolverStub {});
    bv.current_environment.insert(Path::Local(1), Expression::Reference(Path::Local(2)));
    let value = Expression::Reference(Path::new_deref(Path::Local(1)));
    let computed = Path::Computed(Box::new(value.duplicate()));
    assert!(bv.lookup_path_and_refine_result(&computed, &u16_type()).same_as(&value));
}

#[test]
fn subset_of_environments() {
    let mut a = Environment::new();
    a.insert(Path::Local(1), u128_const(1));
    let mut b = a.duplicate();
    assert!(a.subset(&b));
    b.insert(Path::Local(2), u128_const(2));
    assert!(a.subset(&b));
    assert!(!b.subset(&a));
    b.insert(Path::Local(1), u128_const(3));
    assert!(!a.subset(&b));
}

#[test]
fn tagging_an_unbound_scalar_tags_its_value() {
    let tag = Tag { def_id: 4, prop_set: TAG_PROPAGATION_ALL };
    let mut bv = BodyVisitor::new(SolverStub {});
    let p = Path::Parameter(1);
    bv.attach_tag_to_value_at_path(tag, &p, &u16_type());
    match bv.current_environment.value_at(&p) {
        Some(Expression::Tagged { tag: t, operand }) => {
            assert_eq!(*t, tag);
            assert!(operand.same_as(&Expression::InitialParameterValue(p.duplicate())));
        },
        _ => panic!("scalar not tagged"),
    }
}

#[test]
fn widening_keeps_only_agreed_values() {
    let mut a = Environment::new();
    a.insert(Path::Local(1), u128_const(1));
    a.insert(Path::Local(2), u128_const(2));
    let mut b = Environment::new();
    b.insert(Path::Local(1), u128_const(1));
    b.insert(Path::Local(2), u128_const(3));
    b.insert(Path::Local(3), u128_const(4));
    let w = a.widen(&b);
    assert!(w.value_at(&Path::Local(1)).unwrap().same_as(&u128_const(1)));
    assert!(w.value_at(&Path::Local(2)).unwrap().same_as(&Expression::Variable(Path::Local(2))));
    assert!(w.value_at(&Path::Local(3)).unwrap().same_as(&Expression::Variable(Path::Local(3))));
    assert!(w.widen(&w).subset(&w));
}
