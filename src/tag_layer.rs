//! Attaching tags to the values stored at a path, to the tag fields of
//! non-scalar values, and to every component the tag propagates to.

use vstd::prelude::*;
use crate::annotations::TagPropagation;
use crate::body_visitor::BodyVisitor;
use crate::canonicalize::canonical_path;
use crate::condition::SmtSolver;
use crate::environment::{has_key, keys_unique, lemma_has_key_take, lemma_map_of_index, map_of, Environment};
use crate::persistent_map::trie_insert;
use crate::expression::{ConstantDomain, Expression};
use crate::path::{Path, PathSelector};
use crate::tags::{has_tag, Tag};
use crate::types::IrType;

verus! {

/// Bindings that carry internal information and never take tags here: the
/// tag fields are tagged as tag fields, not as components.
pub open spec fn skips_tags(k: Path) -> bool {
    ||| k matches Path::Qualified { selector: PathSelector::Layout, .. }
    ||| k matches Path::Qualified { selector: PathSelector::Discriminant, .. }
    ||| k matches Path::Qualified { selector: PathSelector::TagField, .. }
}

/// The path of the tag field of the value at `qualifier`.
pub open spec fn tag_field_of(qualifier: Path) -> Path {
    Path::Qualified { qualifier: Box::new(qualifier), selector: PathSelector::TagField }
}

/// The canonical path of the tag field of the value at `qualifier`.
pub open spec fn canonical_tag_field(m: Map<Path, Expression>, qualifier: Path) -> Path {
    canonical_path(tag_field_of(qualifier), m)
}

/// The tag field of the value at `qualifier`: its binding, or else unknown
/// for a parameter's value and untagged for any other.
pub open spec fn tag_field_value(m: Map<Path, Expression>, qualifier: Path) -> Expression {
    let tf = canonical_tag_field(m, qualifier);
    if m.contains_key(tf) {
        m[tf]
    } else if qualifier.root() is Parameter {
        Expression::UnknownTagField(tf)
    } else {
        Expression::CompileTimeConstant(ConstantDomain::I128(0))
    }
}

/// `m` with `tag` attached to every binding within `root` but `except` and
/// those that skip tags.
pub open spec fn tagged_within(m: Map<Path, Expression>, tag: Tag, root: Path, except: Path) -> Map<
    Path,
    Expression,
> {
    Map::new(
        |k: Path| m.contains_key(k),
        |k: Path|
            if k.within(root) && !skips_tags(k) && k != except {
                Expression::Tagged { tag, operand: Box::new(m[k]) }
            } else {
                m[k]
            },
    )
}

/// Whether values of type `t` are scalars, which have no tag field.
pub open spec fn is_scalar_type(t: IrType) -> bool {
    t is Bool || t is Char || t is Int || t is RawPtr
}

/// The value whose tag field holds the tags of a value of type `t` at
/// `path`: for a reference, the value it refers to.
pub open spec fn tag_qualifier(path: Path, t: IrType) -> Path {
    if t is Ref || t is Boxed {
        Path::Qualified { qualifier: Box::new(path), selector: PathSelector::Deref }
    } else {
        path
    }
}

/// `m` after attaching `tag` to the value of type `root_type` at `path`,
/// which is not a union field.
pub open spec fn attached(m: Map<Path, Expression>, tag: Tag, path: Path, root_type: IrType) -> Map<
    Path,
    Expression,
> {
    let q = tag_qualifier(path, root_type);
    let tf = canonical_tag_field(m, q);
    if is_scalar_type(root_type) {
        m.insert(path, Expression::Tagged { tag, operand: Box::new(value_or_initial(m, path)) })
    } else {
        let m1 = m.insert(tf, Expression::Tagged { tag, operand: Box::new(tag_field_value(m, q)) });
        if !tag.propagates(TagPropagation::SubComponent) {
            m1
        } else {
            tagged_within(m1, tag, path, tf)
        }
    }
}

/// The value bound to `p` in `m`, or else the unknown it names (the initial
/// value where it is a parameter's).
pub open spec fn value_or_initial(m: Map<Path, Expression>, p: Path) -> Expression {
    if m.contains_key(p) {
        m[p]
    } else if p.root() is Parameter {
        Expression::InitialParameterValue(p)
    } else {
        Expression::Variable(p)
    }
}

/// `m` after attaching `tag` to the first `count` cases of the union at `qualifier`.
pub open spec fn attached_to_cases(
    m: Map<Path, Expression>,
    tag: Tag,
    qualifier: Path,
    num_cases: u64,
    count: nat,
    root_type: IrType,
) -> Map<Path, Expression>
    decreases count,
{
    if count == 0 {
        m
    } else {
        attached(
            attached_to_cases(m, tag, qualifier, num_cases, (count - 1) as nat, root_type),
            tag,
            Path::Qualified {
                qualifier: Box::new(qualifier),
                selector: PathSelector::UnionField { case_index: (count - 1) as u64, num_cases },
            },
            root_type,
        )
    }
}

/// `m` after attaching `tag` to the value at `path`; all cases of a union
/// take the tag, since they share their storage.
pub open spec fn attached_at_path(m: Map<Path, Expression>, tag: Tag, path: Path, root_type: IrType) -> Map<
    Path,
    Expression,
> {
    match path {
        Path::Qualified { qualifier, selector: PathSelector::UnionField { num_cases, .. } } =>
            attached_to_cases(m, tag, *qualifier, num_cases, num_cases as nat, root_type),
        _ => attached(m, tag, path, root_type),
    }
}

/// Every binding of `m` is still bound in `m2`, and carries every tag it carried.
pub open spec fn tags_kept(m: Map<Path, Expression>, m2: Map<Path, Expression>) -> bool {
    &&& forall|k: Path| m.contains_key(k) ==> #[trigger] m2.contains_key(k)
    &&& forall|k: Path, t: Tag|
        m.contains_key(k) && #[trigger] has_tag(m[k], t) ==> has_tag(m2[k], t)
}

impl Environment {
    /// Attaches `tag` to every binding within `root` but `except` and those
    /// that skip tags.
    pub fn tag_bindings_within(&mut self, tag: Tag, root: &Path, except: &Path)
        ensures
            final(self)@ == tagged_within(old(self)@, tag, *root, *except),
            final(self).entry_condition == old(self).entry_condition,
    {
        let entries = self.entries();
        let ghost m = self@;
        let n = entries.len();
        let mut i: usize = 0;
        proof {
            assert(self@ =~= Map::new(
                |k: Path| m.contains_key(k),
                |k: Path|
                    if has_key(entries@.take(0), k) && k.within(*root) && !skips_tags(k) && k != *except {
                        Expression::Tagged { tag, operand: Box::new(m[k]) }
                    } else {
                        m[k]
                    },
            ));
        }
        while i < n
            invariant
                n == entries@.len(),
                i <= n,
                keys_unique(entries@),
                map_of(entries@) == m,
                self@ == Map::new(
                    |k: Path| m.contains_key(k),
                    |k: Path|
                        if has_key(entries@.take(i as int), k) && k.within(*root) && !skips_tags(k)
                            && k != *except {
                            Expression::Tagged { tag, operand: Box::new(m[k]) }
                        } else {
                            m[k]
                        },
                ),
                self.entry_condition == old(self).entry_condition,
            decreases n - i,
        {
            proof {
                lemma_has_key_take(entries@, i as int);
                lemma_map_of_index(entries@, i as int);
                assert forall|j: int| 0 <= j < i implies entries@.take(i as int)[j].0 != entries@[i as int].0 by {
                    assert(entries@[j].0 != entries@[i as int].0);
                }
                assert(!has_key(entries@.take(i as int), entries@[i as int].0));
            }
            let k = &entries[i].0;
            let skipped = match k {
                Path::Qualified { selector: PathSelector::Layout, .. } => true,
                Path::Qualified { selector: PathSelector::Discriminant, .. } => true,
                Path::Qualified { selector: PathSelector::TagField, .. } => true,
                _ => false,
            };
            if k.is_within(root) && !skipped && !k.same_as(except) {
                let v = entries[i].1.duplicate().add_tag(tag);
                trie_insert(&mut self.value_map, k.duplicate(), v);
            }
            proof {
                assert(self@ =~= Map::new(
                    |k: Path| m.contains_key(k),
                    |k: Path|
                        if has_key(entries@.take(i as int + 1), k) && k.within(*root) && !skips_tags(k)
                            && k != *except {
                            Expression::Tagged { tag, operand: Box::new(m[k]) }
                        } else {
                            m[k]
                        },
                ));
            }
            i += 1;
        }
        proof {
            assert(entries@.take(n as int) =~= entries@);
            assert(self@ =~= tagged_within(m, tag, *root, *except));
        }
    }
}

impl<S: SmtSolver> BodyVisitor<S> {
    /// The path and value of the tag field of the non-scalar value at
    /// `qualifier`; a tag field that was not bound is bound from now on.
    pub fn extract_tag_field_of_non_scalar_value_at(&mut self, qualifier: &Path, root_type: &IrType) -> (r: (Path, Expression))
        requires
            old(self).wf(),
        ensures
            final(self).wf(),
            r.0 == canonical_tag_field(old(self).current_environment@, tag_qualifier(*qualifier, *root_type)),
            r.1 == tag_field_value(old(self).current_environment@, tag_qualifier(*qualifier, *root_type)),
            final(self).current_environment@ == old(self).current_environment@.insert(r.0, r.1),
            final(self).current_environment.entry_condition
                == old(self).current_environment.entry_condition,
            final(self).buffered_diagnostics == old(self).buffered_diagnostics,
            final(self).heap_addresses == old(self).heap_addresses,
            final(self).next_heap_address == old(self).next_heap_address,
            final(self).current_location == old(self).current_location,
            final(self).smt_solver == old(self).smt_solver,
    {
        let q = tag_qualifier_of(qualifier, root_type);
        let tag_field_path = Path::new_tag_field(q.duplicate()).canonicalize(&self.current_environment);
        let value = match self.current_environment.value_at(&tag_field_path) {
            Some(v) => v.duplicate(),
            None => if is_rooted_by_parameter(&q) {
                Expression::UnknownTagField(tag_field_path.duplicate())
            } else {
                Expression::CompileTimeConstant(ConstantDomain::I128(0))
            },
        };
        self.current_environment.insert(tag_field_path.duplicate(), value.duplicate());
        (tag_field_path, value)
    }

    fn attach_tag_to_value_at_simple_path(&mut self, tag: Tag, value_path: &Path, root_type: &IrType)
        requires
            old(self).wf(),
        ensures
            final(self).wf(),
            final(self).current_environment@ == attached(
                old(self).current_environment@,
                tag,
                *value_path,
                *root_type,
            ),
            final(self).current_environment.entry_condition
                == old(self).current_environment.entry_condition,
            final(self).buffered_diagnostics == old(self).buffered_diagnostics,
            final(self).heap_addresses == old(self).heap_addresses,
            final(self).next_heap_address == old(self).next_heap_address,
            final(self).current_location == old(self).current_location,
            final(self).smt_solver == old(self).smt_solver,
    {
        if is_scalar_of(root_type) {
            let value = match self.current_environment.value_at(value_path) {
                Some(v) => v.duplicate(),
                None => if is_rooted_by_parameter(value_path) {
                    Expression::InitialParameterValue(value_path.duplicate())
                } else {
                    Expression::Variable(value_path.duplicate())
                },
            };
            self.current_environment.insert(value_path.duplicate(), value.add_tag(tag));
            return;
        }
        let q = tag_qualifier_of(value_path, root_type);
        let tag_field_path = Path::new_tag_field(q.duplicate()).canonicalize(&self.current_environment);
        let (tf, value) = self.extract_tag_field_of_non_scalar_value_at(value_path, root_type);
        self.current_environment.insert(tf, value.add_tag(tag));
        proof {
            assert(self.current_environment@ =~= old(self).current_environment@.insert(
                tag_field_path,
                Expression::Tagged {
                    tag,
                    operand: Box::new(tag_field_value(old(self).current_environment@, q)),
                },
            ));
        }
        if !tag.is_propagated_by(TagPropagation::SubComponent) {
            return;
        }
        self.current_environment.tag_bindings_within(tag, value_path, &tag_field_path);
    }

    /// Attaches `tag` to the value of type `root_type` at `value_path`: a
    /// scalar's value (its binding, or the unknown it names) takes the tag; a
    /// non-scalar's tag field takes it and, where the tag propagates to
    /// sub-components, so does every value stored within it. A union field
    /// shares its storage with the other cases, so all of them take the tag.
    pub fn attach_tag_to_value_at_path(&mut self, tag: Tag, value_path: &Path, root_type: &IrType)
        requires
            old(self).wf(),
        ensures
            final(self).wf(),
            final(self).current_environment@ == attached_at_path(
                old(self).current_environment@,
                tag,
                *value_path,
                *root_type,
            ),
            final(self).current_environment.entry_condition
                == old(self).current_environment.entry_condition,
            final(self).buffered_diagnostics == old(self).buffered_diagnostics,
            final(self).heap_addresses == old(self).heap_addresses,
            final(self).next_heap_address == old(self).next_heap_address,
            final(self).current_location == old(self).current_location,
            final(self).smt_solver == old(self).smt_solver,
    {
        match value_path {
            Path::Qualified { qualifier, selector: PathSelector::UnionField { num_cases, .. } } => {
                let n = *num_cases;
                let mut i: u64 = 0;
                while i < n
                    invariant
                        self.wf(),
                        i <= n,
                        self.current_environment@ == attached_to_cases(
                            old(self).current_environment@,
                            tag,
                            **qualifier,
                            n,
                            i as nat,
                            *root_type,
                        ),
                        self.current_environment.entry_condition
                            == old(self).current_environment.entry_condition,
                        self.buffered_diagnostics == old(self).buffered_diagnostics,
                        self.heap_addresses == old(self).heap_addresses,
                        self.next_heap_address == old(self).next_heap_address,
                        self.current_location == old(self).current_location,
                        self.smt_solver == old(self).smt_solver,
                    decreases n - i,
                {
                    let case_path = Path::new_union_field((&**qualifier).duplicate(), i, n);
                    self.attach_tag_to_value_at_simple_path(tag, &case_path, root_type);
                    i += 1;
                }
            },
            _ => {
                self.attach_tag_to_value_at_simple_path(tag, value_path, root_type);
            },
        }
    }
}

/// Whether values of type `t` are scalars.
pub fn is_scalar_of(t: &IrType) -> (r: bool)
    ensures
        r == is_scalar_type(*t),
{
    match t {
        IrType::Bool | IrType::Char | IrType::Int { .. } | IrType::RawPtr(_) => true,
        _ => false,
    }
}

/// The value whose tag field holds the tags of a value of type `t` at `path`.
pub fn tag_qualifier_of(path: &Path, t: &IrType) -> (r: Path)
    ensures
        r == tag_qualifier(*path, *t),
{
    match t {
        IrType::Ref(_) | IrType::Boxed(_) => Path::new_deref(path.duplicate()),
        _ => path.duplicate(),
    }
}

/// Whether the root of `path` is a parameter.
pub fn is_rooted_by_parameter(path: &Path) -> (r: bool)
    ensures
        r == path.root() is Parameter,
    decreases path,
{
    match path {
        Path::Parameter(_) => true,
        Path::Qualified { qualifier, .. } => is_rooted_by_parameter(&**qualifier),
        _ => false,
    }
}

pub proof fn lemma_tags_kept_transitive(
    m1: Map<Path, Expression>,
    m2: Map<Path, Expression>,
    m3: Map<Path, Expression>,
)
    requires
        tags_kept(m1, m2),
        tags_kept(m2, m3),
    ensures
        tags_kept(m1, m3),
{
    assert forall|k: Path, t: Tag| m1.contains_key(k) && #[trigger] has_tag(m1[k], t) implies has_tag(
        m3[k],
        t,
    ) by {
        assert(m2.contains_key(k));
        assert(has_tag(m2[k], t));
    }
}

/// Attaching a tag to one value keeps every tag of every binding.
pub proof fn lemma_attached_keeps_tags(m: Map<Path, Expression>, tag: Tag, path: Path, root_type: IrType)
    ensures
        tags_kept(m, attached(m, tag, path, root_type)),
{
    let q = tag_qualifier(path, root_type);
    let tf = canonical_tag_field(m, q);
    let is_scalar = is_scalar_type(root_type);
    if is_scalar {
        let m2 = m.insert(path, Expression::Tagged { tag, operand: Box::new(value_or_initial(m, path)) });
        assert(tags_kept(m, m2)) by {
            assert forall|k: Path, t: Tag| m.contains_key(k) && #[trigger] has_tag(m[k], t) implies has_tag(
                m2[k],
                t,
            ) by {
                if k == path {
                    assert(value_or_initial(m, path) == m[k]);
                }
            }
        }
    } else {
        let m1 = m.insert(tf, Expression::Tagged { tag, operand: Box::new(tag_field_value(m, q)) });
        assert(tags_kept(m, m1)) by {
            assert forall|k: Path, t: Tag| m.contains_key(k) && #[trigger] has_tag(m[k], t) implies has_tag(
                m1[k],
                t,
            ) by {
                if k == tf {
                    assert(tag_field_value(m, q) == m[k]);
                }
            }
        }
        if tag.propagates(TagPropagation::SubComponent) {
            let m2 = tagged_within(m1, tag, path, tf);
            assert(tags_kept(m1, m2));
            lemma_tags_kept_transitive(m, m1, m2);
        }
    }
}

/// Attaching a tag to the first `count` cases of a union keeps every tag.
pub proof fn lemma_attached_to_cases_keeps_tags(
    m: Map<Path, Expression>,
    tag: Tag,
    qualifier: Path,
    num_cases: u64,
    count: nat,
    root_type: IrType,
)
    ensures
        tags_kept(m, attached_to_cases(m, tag, qualifier, num_cases, count, root_type)),
    decreases count,
{
    if count == 0 {
        assert(tags_kept(m, m));
    } else {
        let prev = attached_to_cases(m, tag, qualifier, num_cases, (count - 1) as nat, root_type);
        lemma_attached_to_cases_keeps_tags(m, tag, qualifier, num_cases, (count - 1) as nat, root_type);
        lemma_attached_keeps_tags(
            prev,
            tag,
            Path::Qualified {
                qualifier: Box::new(qualifier),
                selector: PathSelector::UnionField { case_index: (count - 1) as u64, num_cases },
            },
            root_type,
        );
        lemma_tags_kept_transitive(
            m,
            prev,
            attached_to_cases(m, tag, qualifier, num_cases, count, root_type),
        );
    }
}

/// The environment after attaching each `(tag, path, root_type)` of `steps` in turn.
pub open spec fn attached_all(m: Map<Path, Expression>, steps: Seq<(Tag, Path, IrType)>) -> Map<
    Path,
    Expression,
>
    decreases steps.len(),
{
    if steps.len() == 0 {
        m
    } else {
        let last = steps.last();
        attached_at_path(attached_all(m, steps.drop_last()), last.0, last.1, last.2)
    }
}

/// Tags are monotonic: after any number of attachments, every binding is
/// still there and carries every tag it carried before.
pub proof fn lemma_attachments_keep_tags(m: Map<Path, Expression>, steps: Seq<(Tag, Path, IrType)>)
    ensures
        tags_kept(m, attached_all(m, steps)),
    decreases steps.len(),
{
    if steps.len() == 0 {
        lemma_attached_to_cases_keeps_tags(m, Tag { def_id: 0, prop_set: 0 }, Path::Result, 0, 0, IrType::Bool);
    } else {
        let prev = attached_all(m, steps.drop_last());
        let last = steps.last();
        lemma_attachments_keep_tags(m, steps.drop_last());
        match last.1 {
            Path::Qualified { qualifier, selector: PathSelector::UnionField { num_cases, .. } } => {
                lemma_attached_to_cases_keeps_tags(prev, last.0, *qualifier, num_cases, num_cases as nat, last.2);
            },
            _ => {
                lemma_attached_keeps_tags(prev, last.0, last.1, last.2);
            },
        }
        lemma_tags_kept_transitive(m, prev, attached_all(m, steps));
    }
}

} // verus!
