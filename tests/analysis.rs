use hepha::annotations::{add_propagation, TagPropagation, TAG_PROPAGATION_ALL};
use hepha::body_visitor::{BodyVisitor, Warning};
use hepha::condition::{resolve_condition, solve_condition, SmtResult, SolverStub};
use hepha::environment::Environment;
use hepha::expression::{ConstantDomain, Expression};
use hepha::fixed_point::{compute_fixed_point, Interval, MAX_FIXPOINT_ITERATIONS};
use hepha::path::{Path, PathSelector};
use hepha::tags::Tag;
use hepha::types::{IrType, TypeList, TypeVisitor};
use hepha::transmute::transmute_fields;

fn u128_const(v: u128) -> Expression {
    Expression::CompileTimeConstant(ConstantDomain::U128(v))
}

fn bool_const(b: bool) -> Expression {
    Expression::CompileTimeConstant(ConstantDomain::Bool(b))
}

fn value_of(bv: &BodyVisitor<SolverStub>, path: &Path) -> u128 {
    match bv.current_environment.value_at(path) {
        Some(Expression::CompileTimeConstant(ConstantDomain::U128(v))) => *v,
        _ => panic!("no constant bound"),
    }
}

fn u8_type() -> IrType {
    IrType::Int { bits: 8, signed: false }
}

fn union_visitor() -> TypeVisitor {
    let u = IrType::Union(Box::new(TypeList::from_vec(vec![
        IrType::Int { bits: 16, signed: false },
        IrType::Tuple(Box::new(TypeList::from_vec(vec![u8_type(), u8_type()]))),
        u8_type(),
    ])));
    let s = IrType::Struct { fields: Box::new(TypeList::from_vec(vec![u8_type(), u8_type()])), transparent: false };
    TypeVisitor { local_types: vec![IrType::Bool, u, s, u8_type()], generic_arguments: vec![] }
}

#[test]
fn union_transmute_fills_every_case() {
    let types = union_visitor();
    let mut bv = BodyVisitor::new(SolverStub {});
    let u = Path::Local(1);
    let s = Path::Local(2);
    let x = Path::new_union_field(u.duplicate(), 0, 3);
    let y = Path::new_union_field(u.duplicate(), 1, 3);
    let z = Path::new_union_field(u.duplicate(), 2, 3);
    bv.current_environment.insert(z.duplicate(), u128_const(0));
    bv.current_environment.insert(Path::new_field(s.duplicate(), 0), u128_const(0xAB));
    bv.current_environment.insert(Path::new_field(s.duplicate(), 1), u128_const(0xCD));
    let s_type = types.local_types[2].duplicate();
    bv.copy_or_move_elements(&types, &x, &s, &s_type, false);
    assert_eq!(value_of(&bv, &x), 0xCDAB);
    assert_eq!(value_of(&bv, &Path::new_field(y.duplicate(), 0)), 0xAB);
    assert_eq!(value_of(&bv, &Path::new_field(y, 1)), 0xCD);
    assert_eq!(value_of(&bv, &z), 0xAB);
    assert!(bv.buffered_diagnostics.is_empty());
}

#[test]
fn union_underfilled_by_narrow_source() {
    let types = union_visitor();
    let mut bv = BodyVisitor::new(SolverStub {});
    let u = Path::Local(1);
    let byte = Path::Local(3);
    let x = Path::new_union_field(u.duplicate(), 0, 3);
    let z = Path::new_union_field(u.duplicate(), 2, 3);
    bv.current_environment.insert(byte.duplicate(), u128_const(0x12));
    bv.copy_or_move_elements(&types, &z, &byte, &u8_type(), false);
    assert!(bv.buffered_diagnostics.contains(&Warning::UnionNotFullyInitialized));
    assert_eq!(
        bv.buffered_diagnostics[0].message(),
        "The union is not fully initialized by this assignment"
    );
    assert!(bv.current_environment.value_at(&x).is_none());
    assert_eq!(value_of(&bv, &z), 0x12);
}

#[test]
fn transmute_splits_and_joins_fields() {
    let (values, full) = transmute_fields(&vec![(16u32, 0xBEEFu128), (32u32, 0x1234_5678u128)], &vec![8u32, 32, 8]);
    assert!(full);
    assert_eq!(values, vec![0xEF, 0x3456_78BE, 0x12]);
    let (values, full) = transmute_fields(&vec![(128u32, u128::MAX)], &vec![128u32]);
    assert!(full);
    assert_eq!(values, vec![u128::MAX]);
    let (values, full) = transmute_fields(&vec![(4u32, 0xFFu128)], &vec![2u32, 4]);
    assert!(!full);
    assert_eq!(values, vec![3]);
}

fn tag_with(mask: u128) -> Tag {
    Tag { def_id: 7, prop_set: mask }
}

#[test]
fn tag_propagates_across_addition() {
    let mask = add_propagation(add_propagation(0, TagPropagation::Add), TagPropagation::SubComponent);
    let t = tag_with(mask);
    let mut bv = BodyVisitor::new(SolverStub {});
    let x = Path::Local(1);
    bv.current_environment.insert(x.duplicate(), Expression::Variable(x.duplicate()));
    bv.attach_tag_to_value_at_path(t, &x, &IrType::Int { bits: 64, signed: false });
    let xv = bv.current_environment.value_at(&x).unwrap().duplicate();
    assert!(xv.has_tag(&t));
    let y = xv.addition(u128_const(1));
    assert!(y.has_tag(&t));

    let blocked = tag_with(0);
    let mut bv = BodyVisitor::new(SolverStub {});
    bv.current_environment.insert(x.duplicate(), Expression::Variable(x.duplicate()));
    bv.attach_tag_to_value_at_path(blocked, &x, &IrType::Int { bits: 64, signed: false });
    let xv = bv.current_environment.value_at(&x).unwrap().duplicate();
    assert!(xv.has_tag(&blocked));
    let y = xv.addition(u128_const(1));
    assert!(!y.has_tag(&blocked));
}

#[test]
fn constant_addition_folds() {
    let sum = u128_const(2).addition(u128_const(3));
    assert!(sum.same_as(&u128_const(5)));
    let overflow = u128_const(u128::MAX).addition(u128_const(1));
    assert!(matches!(overflow, Expression::Add { .. }));
}

#[test]
fn tags_accumulate_on_structures() {
    let first = tag_with(TAG_PROPAGATION_ALL);
    let second = Tag { def_id: 9, prop_set: 0 };
    let mut bv = BodyVisitor::new(SolverStub {});
    let s = Path::Parameter(1);
    let field = Path::new_field(s.duplicate(), 0);
    let layout = Path::new_qualified(s.duplicate(), PathSelector::Layout);
    bv.current_environment.insert(field.duplicate(), u128_const(4));
    bv.current_environment.insert(layout.duplicate(), u128_const(8));
    bv.attach_tag_to_value_at_path(first, &s, &IrType::Tuple(Box::new(TypeList::Nil)));
    bv.attach_tag_to_value_at_path(second, &s, &IrType::Tuple(Box::new(TypeList::Nil)));
    let tag_field = Path::new_tag_field(s.duplicate());
    let tf = bv.current_environment.value_at(&tag_field).unwrap();
    assert!(tf.has_tag(&first));
    assert!(tf.has_tag(&second));
    let fv = bv.current_environment.value_at(&field).unwrap();
    assert!(fv.has_tag(&first));
    assert!(!fv.has_tag(&second));
    let lv = bv.current_environment.value_at(&layout).unwrap();
    assert!(!lv.has_tag(&first));
}

#[test]
fn tag_field_of_parameter_is_unknown() {
    let mut bv = BodyVisitor::new(SolverStub {});
    let (path, value) = bv.extract_tag_field_of_non_scalar_value_at(&Path::Parameter(2), &IrType::Tuple(Box::new(TypeList::Nil)));
    assert!(path.same_as(&Path::new_tag_field(Path::Parameter(2))));
    assert!(matches!(value, Expression::UnknownTagField(_)));
    let (_, value) = bv.extract_tag_field_of_non_scalar_value_at(&Path::Local(2), &IrType::Tuple(Box::new(TypeList::Nil)));
    assert!(value.same_as(&Expression::CompileTimeConstant(ConstantDomain::I128(0))));
}

#[test]
fn union_tag_reaches_every_case() {
    let t = tag_with(TAG_PROPAGATION_ALL);
    let mut bv = BodyVisitor::new(SolverStub {});
    let u = Path::Local(1);
    let a = Path::new_union_field(u.duplicate(), 0, 2);
    let b = Path::new_union_field(u.duplicate(), 1, 2);
    bv.current_environment.insert(a.duplicate(), u128_const(1));
    bv.current_environment.insert(b.duplicate(), u128_const(1));
    bv.attach_tag_to_value_at_path(t, &a, &IrType::Int { bits: 64, signed: false });
    assert!(bv.current_environment.value_at(&a).unwrap().has_tag(&t));
    assert!(bv.current_environment.value_at(&b).unwrap().has_tag(&t));
}

#[test]
fn canonicalize_cancels_deref_of_reference() {
    let mut env = Environment::new();
    let r = Path::Local(1);
    let target = Path::new_field(Path::Local(2), 3);
    env.insert(r.duplicate(), Expression::Reference(target.duplicate()));
    let p = Path::new_field(Path::new_deref(r.duplicate()), 0);
    let c = p.canonicalize(&env);
    assert!(c.same_as(&Path::new_field(target.duplicate(), 0)));
    assert!(c.canonicalize(&env).same_as(&c));
    let computed = Path::new_deref(Path::Computed(Box::new(Expression::Reference(Path::Local(4)))));
    assert!(computed.canonicalize(&env).same_as(&Path::Local(4)));
    let plain = Path::new_deref(Path::Local(5));
    assert!(plain.canonicalize(&env).same_as(&plain));
}

#[test]
fn strong_update_invalidates_descendants() {
    let mut env = Environment::new();
    let s = Path::Local(1);
    let f = Path::new_field(s.duplicate(), 0);
    let other = Path::Local(2);
    env.insert(f.duplicate(), u128_const(1));
    env.insert(other.duplicate(), u128_const(2));
    env.strong_update_value_at(s.duplicate(), u128_const(3));
    assert!(env.value_at(&f).is_none());
    assert!(env.value_at(&s).unwrap().same_as(&u128_const(3)));
    assert!(env.value_at(&other).unwrap().same_as(&u128_const(2)));
    assert!(f.is_rooted_by(&s));
    assert!(!s.is_rooted_by(&s));
    let moved = f.replace_root(&s, &other);
    assert!(moved.same_as(&Path::new_field(other, 0)));
}

#[test]
fn condition_and_negation_never_both_true() {
    let c = Expression::Variable(Path::Local(1));
    let not_c = Expression::logical_not(c.duplicate());
    let entry = c.duplicate();
    let u = SmtResult::Undefined;
    assert_eq!(resolve_condition(&c, &entry, u, u, u), (Some(true), None));
    assert_eq!(resolve_condition(&not_c, &entry, u, u, u), (Some(false), None));
    let top = bool_const(true);
    let sat = SmtResult::Satisfiable;
    let unsat = SmtResult::Unsatisfiable;
    assert_eq!(resolve_condition(&c, &top, u, sat, unsat), (Some(true), Some(true)));
    assert_eq!(resolve_condition(&not_c, &top, u, unsat, sat), (Some(false), Some(true)));
    let unknown = Expression::Variable(Path::Local(7));
    assert_eq!(resolve_condition(&c, &unknown, unsat, sat, unsat), (None, Some(false)));
    assert_eq!(resolve_condition(&c, &unknown, sat, sat, u), (None, None));
    assert_eq!(solve_condition(unsat, u), Some(false));
    assert_eq!(solve_condition(sat, unsat), Some(true));
    assert_eq!(solve_condition(sat, sat), None);
}

#[test]
fn check_condition_with_stub_solver() {
    let mut bv = BodyVisitor::new(SolverStub {});
    assert_eq!(bv.check_condition_value_and_reachability(&bool_const(false)), (Some(false), Some(true)));
    assert_eq!(bv.check_condition_value_and_reachability(&Expression::Top), (None, Some(true)));
    bv.current_environment.entry_condition = Expression::Variable(Path::Local(3));
    assert_eq!(bv.check_condition_value_and_reachability(&Expression::Top), (None, None));
}

fn bounded(lower: i64, upper: i64) -> Interval {
    Interval { lower: Some(lower), upper: Some(upper) }
}

#[test]
fn counted_loop_reaches_fixed_point() {
    let r = compute_fixed_point(&vec![bounded(0, 0)], &vec![(0, bounded(0, 0))], 0, 10, &vec![1]);
    assert_eq!(r.iterations, 4);
    assert!(!r.analysis_is_incomplete);
    assert_eq!(r.head_state, vec![Interval { lower: Some(0), upper: None }]);
    assert_eq!(r.out_state, vec![bounded(1, 10)]);
    assert_eq!(r.exit_state, vec![Interval { lower: Some(10), upper: None }]);
    assert!(r.entry_condition.is_empty());
}

#[test]
fn loop_with_untouched_variable() {
    let r = compute_fixed_point(
        &vec![bounded(0, 0), bounded(5, 5)],
        &vec![(0, bounded(0, 0)), (1, bounded(5, 5))],
        0,
        3,
        &vec![2, 0],
    );
    assert_eq!(r.entry_condition, vec![(1, bounded(5, 5))]);
    assert_eq!(r.iterations, 4);
    assert!(!r.analysis_is_incomplete);
    assert_eq!(r.exit_state[1], bounded(5, 5));
    assert!(r.iterations < MAX_FIXPOINT_ITERATIONS);
}

#[test]
fn join_and_widen_of_intervals() {
    let a = bounded(0, 3);
    let b = bounded(2, 9);
    assert_eq!(a.join(&b), b.join(&a));
    assert_eq!(a.join(&b), bounded(0, 9));
    assert_eq!(a.join(&a), a);
    let w = a.widen(&b);
    assert_eq!(w, Interval { lower: Some(0), upper: None });
    assert!(a.join(&b).subset(&w));
    assert!(!w.subset(&a));
}

#[test]
fn copies_of_an_environment_are_independent() {
    let mut a = Environment::new();
    let x = Path::Local(1);
    let y = Path::Local(2);
    a.insert(x.duplicate(), u128_const(1));
    let mut b = a.duplicate();
    b.insert(y.duplicate(), u128_const(2));
    b.strong_update_value_at(x.duplicate(), u128_const(3));
    assert!(a.value_at(&y).is_none());
    assert!(a.value_at(&x).unwrap().same_as(&u128_const(1)));
    assert!(b.value_at(&x).unwrap().same_as(&u128_const(3)));
    let mut entries = b.entries();
    entries.sort_by_key(|(p, _)| match p {
        Path::Local(n) => *n,
        _ => 0,
    });
    assert_eq!(entries.len(), 2);
    assert!(entries[0].0.same_as(&x));
    assert!(entries[1].1.same_as(&u128_const(2)));
    b.remove_within(&y);
    assert!(b.value_at(&y).is_none());
    assert_eq!(b.entries().len(), 1);
}
