//! Symbolic locations: roots (parameters, locals, heap blocks, ...) qualified by
//! selectors (deref, field, index, ...).

use vstd::prelude::*;
use crate::expression::Expression;

verus! {

/// How a qualified path selects a part of the location its qualifier names.
#[derive(PartialEq, Eq, Structural, Hash, Debug, Copy, Clone)]
pub enum PathSelector {
    Deref,
    Field(u64),
    UnionField { case_index: u64, num_cases: u64 },
    Index(u64),
    ConstantIndex { offset: u64, from_end: bool },
    Slice(u64),
    ConstantSlice { from: u64, to: u64, from_end: bool },
    Downcast { variant: u64 },
    Discriminant,
    Layout,
    TagField,
    Function,
}

/// A symbolic memory location.
#[derive(PartialEq, Eq, Hash, Debug)]
pub enum Path {
    Parameter(u64),
    Local(u64),
    Result,
    Static(u64),
    HeapBlock { abstract_address: u64, is_zeroed: bool },
    PromotedConstant(u64),
    Computed(Box<Expression>),
    PhantomData,
    Qualified { qualifier: Box<Path>, selector: PathSelector },
}

impl Path {
    /// The number of selectors between the root and this path.
    pub open spec fn depth(self) -> nat
        decreases self,
    {
        match self {
            Path::Qualified { qualifier, .. } => qualifier.depth() + 1,
            _ => 0,
        }
    }

    /// True iff some proper prefix of this path is `other`.
    pub open spec fn rooted_by(self, other: Path) -> bool
        decreases self,
    {
        match self {
            Path::Qualified { qualifier, .. } => *qualifier == other || qualifier.rooted_by(other),
            _ => false,
        }
    }

    /// True iff some selector of this path is a dereference.
    pub open spec fn spec_has_deref(self) -> bool
        decreases self,
    {
        match self {
            Path::Qualified { qualifier, selector } => selector == PathSelector::Deref
                || qualifier.spec_has_deref(),
            _ => false,
        }
    }

    /// Returns true iff some selector of this path is a dereference.
    pub fn has_deref(&self) -> (r: bool)
        ensures
            r == self.spec_has_deref(),
        decreases self,
    {
        match self {
            Path::Qualified { qualifier, selector } => *selector == PathSelector::Deref
                || (&**qualifier).has_deref(),
            _ => false,
        }
    }

    /// True iff this path is `other` or lies under it.
    pub open spec fn within(self, other: Path) -> bool {
        self == other || self.rooted_by(other)
    }

    /// Structural equality.
    pub fn same_as(&self, other: &Path) -> (r: bool)
        ensures
            r == (*self == *other),
        decreases self,
    {
        match (self, other) {
            (Path::Parameter(a), Path::Parameter(b)) => *a == *b,
            (Path::Local(a), Path::Local(b)) => *a == *b,
            (Path::Result, Path::Result) => true,
            (Path::Static(a), Path::Static(b)) => *a == *b,
            (
                Path::HeapBlock { abstract_address: a1, is_zeroed: z1 },
                Path::HeapBlock { abstract_address: a2, is_zeroed: z2 },
            ) => *a1 == *a2 && *z1 == *z2,
            (Path::PromotedConstant(a), Path::PromotedConstant(b)) => *a == *b,
            (Path::Computed(a), Path::Computed(b)) => (&**a).same_as(&**b),
            (Path::PhantomData, Path::PhantomData) => true,
            (
                Path::Qualified { qualifier: q1, selector: s1 },
                Path::Qualified { qualifier: q2, selector: s2 },
            ) => *s1 == *s2 && (&**q1).same_as(&**q2),
            _ => false,
        }
    }

    /// A copy of this path.
    pub fn duplicate(&self) -> (r: Path)
        ensures
            r == *self,
        decreases self,
    {
        match self {
            Path::Parameter(a) => Path::Parameter(*a),
            Path::Local(a) => Path::Local(*a),
            Path::Result => Path::Result,
            Path::Static(a) => Path::Static(*a),
            Path::HeapBlock { abstract_address, is_zeroed } => Path::HeapBlock {
                abstract_address: *abstract_address,
                is_zeroed: *is_zeroed,
            },
            Path::PromotedConstant(a) => Path::PromotedConstant(*a),
            Path::Computed(e) => Path::Computed(Box::new((&**e).duplicate())),
            Path::PhantomData => Path::PhantomData,
            Path::Qualified { qualifier, selector } => Path::Qualified {
                qualifier: Box::new((&**qualifier).duplicate()),
                selector: *selector,
            },
        }
    }

    /// This path with `old_root` (where it is this path or a prefix of it)
    /// replaced by `new_root`.
    pub open spec fn replaced_root(self, old_root: Path, new_root: Path) -> Path
        decreases self,
    {
        if self == old_root {
            new_root
        } else {
            match self {
                Path::Qualified { qualifier, selector } => Path::Qualified {
                    qualifier: Box::new(qualifier.replaced_root(old_root, new_root)),
                    selector,
                },
                _ => self,
            }
        }
    }

    /// The path that selects `selector` from `qualifier`.
    pub fn new_qualified(qualifier: Path, selector: PathSelector) -> (r: Path)
        ensures
            r == (Path::Qualified { qualifier: Box::new(qualifier), selector }),
    {
        Path::Qualified { qualifier: Box::new(qualifier), selector }
    }

    /// The path of the value that `qualifier` points to.
    pub fn new_deref(qualifier: Path) -> (r: Path)
        ensures
            r == (Path::Qualified { qualifier: Box::new(qualifier), selector: PathSelector::Deref }),
    {
        Path::new_qualified(qualifier, PathSelector::Deref)
    }

    /// The path of field `field_index` of `qualifier`.
    pub fn new_field(qualifier: Path, field_index: u64) -> (r: Path)
        ensures
            r == (Path::Qualified {
                qualifier: Box::new(qualifier),
                selector: PathSelector::Field(field_index),
            }),
    {
        Path::new_qualified(qualifier, PathSelector::Field(field_index))
    }

    /// The path of the layout of the heap block `qualifier`.
    pub fn new_layout(qualifier: Path) -> (r: Path)
        ensures
            r == (Path::Qualified { qualifier: Box::new(qualifier), selector: PathSelector::Layout }),
    {
        Path::new_qualified(qualifier, PathSelector::Layout)
    }

    /// The path of the tag field of the non-scalar value at `qualifier`.
    pub fn new_tag_field(qualifier: Path) -> (r: Path)
        ensures
            r == (Path::Qualified { qualifier: Box::new(qualifier), selector: PathSelector::TagField }),
    {
        Path::new_qualified(qualifier, PathSelector::TagField)
    }

    /// The path of case `case_index` of the union at `qualifier`.
    pub fn new_union_field(qualifier: Path, case_index: u64, num_cases: u64) -> (r: Path)
        ensures
            r == (Path::Qualified {
                qualifier: Box::new(qualifier),
                selector: PathSelector::UnionField { case_index, num_cases },
            }),
    {
        Path::new_qualified(qualifier, PathSelector::UnionField { case_index, num_cases })
    }

    /// Returns true iff some proper prefix of this path equals `other`.
    pub fn is_rooted_by(&self, other: &Path) -> (r: bool)
        ensures
            r == self.rooted_by(*other),
        decreases self,
    {
        match self {
            Path::Qualified { qualifier, .. } => {
                (&**qualifier).same_as(other) || (&**qualifier).is_rooted_by(other)
            },
            _ => false,
        }
    }

    /// Returns true iff this path equals `other` or is rooted by it.
    pub fn is_within(&self, other: &Path) -> (r: bool)
        ensures
            r == self.within(*other),
    {
        self.same_as(other) || self.is_rooted_by(other)
    }

    /// Re-parents this path: where `old_root` is this path or one of its
    /// prefixes, it is replaced by `new_root`.
    pub fn replace_root(&self, old_root: &Path, new_root: &Path) -> (r: Path)
        ensures
            r == self.replaced_root(*old_root, *new_root),
        decreases self,
    {
        if self.same_as(old_root) {
            new_root.duplicate()
        } else {
            match self {
                Path::Qualified { qualifier, selector } => Path::Qualified {
                    qualifier: Box::new((&**qualifier).replace_root(old_root, new_root)),
                    selector: *selector,
                },
                _ => self.duplicate(),
            }
        }
    }

    /// The root of this path.
    pub open spec fn root(self) -> Path
        decreases self,
    {
        match self {
            Path::Qualified { qualifier, .. } => qualifier.root(),
            _ => self,
        }
    }
}

/// A path that lies within `old_root` lies, once re-parented, within `new_root`.
pub proof fn lemma_replaced_root_within(p: Path, old_root: Path, new_root: Path)
    requires
        p.within(old_root),
    ensures
        p.replaced_root(old_root, new_root).within(new_root),
    decreases p,
{
    if p != old_root {
        match p {
            Path::Qualified { qualifier, selector } => {
                if *qualifier != old_root {
                    lemma_replaced_root_within(*qualifier, old_root, new_root);
                }
            },
            _ => {},
        }
    }
}

} // verus!
