//! The types of the analyzed program, as far as the analysis reads them, and
//! how a path's type follows from the types of its root and selectors.

use vstd::prelude::*;
use crate::path::{Path, PathSelector};

verus! {

/// A type of the analyzed program.
pub enum IrType {
    Bool,
    Char,
    /// An integer of `bits` bits; `usize` and `isize` are 64 bits wide.
    Int { bits: u32, signed: bool },
    Str,
    Ref(Box<IrType>),
    RawPtr(Box<IrType>),
    /// An owning pointer to a heap value.
    Boxed(Box<IrType>),
    Array(Box<IrType>, u64),
    Slice(Box<IrType>),
    Tuple(Box<TypeList>),
    /// A struct; `transparent` when it only wraps its single field.
    Struct { fields: Box<TypeList>, transparent: bool },
    Union(Box<TypeList>),
    /// An enum: the field types of each variant, and the integer type its
    /// `repr` gives the discriminant (width and signedness).
    Enum { variants: Box<VariantList>, discriminant_bits: u32, discriminant_signed: bool },
    /// A generic parameter, by position.
    Param(u64),
    /// A type the analysis does not look into.
    Opaque(u64),
}

/// A list of types: the fields of a tuple, struct, union or variant.
pub enum TypeList {
    Nil,
    Cons(Box<IrType>, Box<TypeList>),
}

/// The variants of an enum.
pub enum VariantList {
    Nil,
    Cons(Box<TypeList>, Box<VariantList>),
}

impl TypeList {
    /// The number of types in the list.
    pub open spec fn len(self) -> nat
        decreases self,
    {
        match self {
            TypeList::Nil => 0,
            TypeList::Cons(_, rest) => 1 + rest.len(),
        }
    }

    /// The type at position `k`, if there is one.
    pub open spec fn at(self, k: nat) -> Option<IrType>
        decreases self,
    {
        match self {
            TypeList::Nil => None,
            TypeList::Cons(t, rest) => if k == 0 {
                Some(*t)
            } else {
                rest.at((k - 1) as nat)
            },
        }
    }

    /// The list of the types of `ts`, in order.
    pub fn from_vec(ts: Vec<IrType>) -> (r: TypeList)
        ensures
            r.len() == ts@.len(),
            forall|k: nat| k < ts@.len() ==> #[trigger] r.at(k) == Some(ts@[k as int]),
    {
        let mut ts = ts;
        let ghost all = ts@;
        let mut r = TypeList::Nil;
        while ts.len() > 0
            invariant
                all.len() == ts@.len() + r.len(),
                ts@ == all.take(ts@.len() as int),
                forall|k: nat| k < r.len() ==> #[trigger] r.at(k) == Some(all[(ts@.len() + k) as int]),
            decreases ts@.len(),
        {
            let t = ts.pop().unwrap();
            let ghost old_r = r;
            r = TypeList::Cons(Box::new(t), Box::new(r));
            proof {
                assert(ts@ =~= all.take(ts@.len() as int));
                assert forall|k: nat| k < r.len() implies #[trigger] r.at(k) == Some(all[(ts@.len() + k) as int]) by {
                    if k > 0 {
                        assert(r.at(k) == old_r.at((k - 1) as nat));
                    }
                }
            }
        }
        r
    }

    /// A copy of this list.
    pub fn duplicate(&self) -> (r: TypeList)
        ensures
            r == *self,
        decreases self,
    {
        match self {
            TypeList::Nil => TypeList::Nil,
            TypeList::Cons(t, rest) => TypeList::Cons(
                Box::new((&**t).duplicate()),
                Box::new((&**rest).duplicate()),
            ),
        }
    }

    /// The type at position `k`, if there is one.
    pub fn get(&self, k: u64) -> (r: Option<&IrType>)
        ensures
            match r {
                Some(t) => self.at(k as nat) == Some(*t),
                None => self.at(k as nat) is None,
            },
        decreases self,
    {
        match self {
            TypeList::Nil => None,
            TypeList::Cons(t, rest) => if k == 0 {
                Some(&**t)
            } else {
                (&**rest).get(k - 1)
            },
        }
    }
}

impl VariantList {
    /// The fields of variant `k`, if there is one.
    pub open spec fn at(self, k: nat) -> Option<TypeList>
        decreases self,
    {
        match self {
            VariantList::Nil => None,
            VariantList::Cons(t, rest) => if k == 0 {
                Some(*t)
            } else {
                rest.at((k - 1) as nat)
            },
        }
    }

    /// A copy of this list.
    pub fn duplicate(&self) -> (r: VariantList)
        ensures
            r == *self,
        decreases self,
    {
        match self {
            VariantList::Nil => VariantList::Nil,
            VariantList::Cons(t, rest) => VariantList::Cons(
                Box::new((&**t).duplicate()),
                Box::new((&**rest).duplicate()),
            ),
        }
    }

    /// The fields of variant `k`, if there is one.
    pub fn get(&self, k: u64) -> (r: Option<&TypeList>)
        ensures
            match r {
                Some(t) => self.at(k as nat) == Some(*t),
                None => self.at(k as nat) is None,
            },
        decreases self,
    {
        match self {
            VariantList::Nil => None,
            VariantList::Cons(t, rest) => if k == 0 {
                Some(&**t)
            } else {
                (&**rest).get(k - 1)
            },
        }
    }
}

impl IrType {
    /// A copy of this type.
    pub fn duplicate(&self) -> (r: IrType)
        ensures
            r == *self,
        decreases self,
    {
        match self {
            IrType::Bool => IrType::Bool,
            IrType::Char => IrType::Char,
            IrType::Int { bits, signed } => IrType::Int { bits: *bits, signed: *signed },
            IrType::Str => IrType::Str,
            IrType::Ref(t) => IrType::Ref(Box::new((&**t).duplicate())),
            IrType::RawPtr(t) => IrType::RawPtr(Box::new((&**t).duplicate())),
            IrType::Boxed(t) => IrType::Boxed(Box::new((&**t).duplicate())),
            IrType::Array(t, n) => IrType::Array(Box::new((&**t).duplicate()), *n),
            IrType::Slice(t) => IrType::Slice(Box::new((&**t).duplicate())),
            IrType::Tuple(ts) => IrType::Tuple(Box::new((&**ts).duplicate())),
            IrType::Struct { fields, transparent } => IrType::Struct {
                fields: Box::new((&**fields).duplicate()),
                transparent: *transparent,
            },
            IrType::Union(ts) => IrType::Union(Box::new((&**ts).duplicate())),
            IrType::Enum { variants, discriminant_bits, discriminant_signed } => IrType::Enum {
                variants: Box::new((&**variants).duplicate()),
                discriminant_bits: *discriminant_bits,
                discriminant_signed: *discriminant_signed,
            },
            IrType::Param(k) => IrType::Param(*k),
            IrType::Opaque(k) => IrType::Opaque(*k),
        }
    }
}

/// The type given to the layout of a heap block.
pub const LAYOUT_TYPE_ID: u64 = 0;

/// `usize`.
pub open spec fn usize_type() -> IrType {
    IrType::Int { bits: 64, signed: false }
}

/// The element type of an array, slice or string.
pub open spec fn element_type(t: IrType) -> Option<IrType> {
    match t {
        IrType::Array(e, _) => Some(*e),
        IrType::Slice(e) => Some(*e),
        IrType::Str => Some(IrType::Int { bits: 8, signed: false }),
        _ => None,
    }
}

/// Whether a pointer to `t` carries a length: `t` is a slice or a string.
pub open spec fn is_unsized_sequence(t: IrType) -> bool {
    t is Slice || t is Str
}

/// The type of the part of a `t` that `selector` selects, where the analysis knows it.
pub open spec fn selected_type(t: IrType, selector: PathSelector) -> Option<IrType> {
    match selector {
        PathSelector::Deref => match t {
            IrType::Ref(target) => Some(*target),
            IrType::RawPtr(target) => Some(*target),
            IrType::Boxed(target) => Some(*target),
            _ => None,
        },
        PathSelector::Field(k) => match t {
            IrType::Tuple(ts) => ts.at(k as nat),
            IrType::Struct { fields, .. } => fields.at(k as nat),
            IrType::Ref(target) => pointer_part(*target, k),
            IrType::RawPtr(target) => pointer_part(*target, k),
            IrType::Boxed(target) => pointer_part(*target, k),
            _ => None,
        },
        PathSelector::UnionField { case_index, .. } => match t {
            IrType::Union(ts) => ts.at(case_index as nat),
            _ => None,
        },
        PathSelector::Downcast { variant } => match t {
            IrType::Enum { variants, .. } => match variants.at(variant as nat) {
                Some(fields) => Some(IrType::Tuple(Box::new(fields))),
                None => None,
            },
            _ => None,
        },
        PathSelector::Discriminant => match t {
            IrType::Enum { discriminant_bits, discriminant_signed, .. } => Some(
                IrType::Int { bits: discriminant_bits, signed: discriminant_signed },
            ),
            _ => None,
        },
        PathSelector::Index(_) => element_type(t),
        PathSelector::ConstantIndex { .. } => element_type(t),
        PathSelector::Slice(_) => match t {
            IrType::Array(e, _) => Some(IrType::Slice(e)),
            IrType::Slice(_) => Some(t),
            IrType::Str => Some(t),
            _ => None,
        },
        PathSelector::ConstantSlice { .. } => match t {
            IrType::Array(e, _) => Some(IrType::Slice(e)),
            IrType::Slice(_) => Some(t),
            IrType::Str => Some(t),
            _ => None,
        },
        PathSelector::Layout => Some(IrType::Opaque(LAYOUT_TYPE_ID)),
        PathSelector::TagField => Some(IrType::Int { bits: 8, signed: true }),
        PathSelector::Function => None,
    }
}

/// Field `k` of a pointer to `target`: a pointer to a slice or string is a
/// (pointer to the first element, length) pair.
pub open spec fn pointer_part(target: IrType, k: u64) -> Option<IrType> {
    if is_unsized_sequence(target) && k == 0 {
        Some(IrType::RawPtr(Box::new(element_type(target).unwrap())))
    } else if is_unsized_sequence(target) && k == 1 {
        Some(usize_type())
    } else {
        None
    }
}

/// The declared types of a body: the locals, where local 0 is the result and
/// locals 1 to the parameter count are the parameters; and the actual
/// arguments of its generic parameters.
pub struct TypeVisitor {
    pub local_types: Vec<IrType>,
    pub generic_arguments: Vec<IrType>,
}

/// The declared type of the root `p`, where it has one.
pub open spec fn root_type(p: Path, locals: Seq<IrType>) -> Option<IrType> {
    match p {
        Path::Result => if locals.len() > 0 {
            Some(locals[0])
        } else {
            None
        },
        Path::Parameter(n) => if n < locals.len() {
            Some(locals[n as int])
        } else {
            None
        },
        Path::Local(n) => if n < locals.len() {
            Some(locals[n as int])
        } else {
            None
        },
        _ => None,
    }
}

/// The type of the location `p` names, before generic arguments are substituted.
pub open spec fn path_type(p: Path, locals: Seq<IrType>) -> Option<IrType>
    decreases p,
{
    match p {
        Path::Qualified { qualifier, selector } => match path_type(*qualifier, locals) {
            Some(t) => selected_type(t, selector),
            None => None,
        },
        _ => root_type(p, locals),
    }
}

fn pointer_part_of(target: &IrType, k: u64) -> (r: Option<IrType>)
    ensures
        r == pointer_part(*target, k),
{
    match target {
        IrType::Slice(e) => if k == 0 {
            Some(IrType::RawPtr(Box::new((&**e).duplicate())))
        } else if k == 1 {
            Some(IrType::Int { bits: 64, signed: false })
        } else {
            None
        },
        IrType::Str => if k == 0 {
            Some(IrType::RawPtr(Box::new(IrType::Int { bits: 8, signed: false })))
        } else if k == 1 {
            Some(IrType::Int { bits: 64, signed: false })
        } else {
            None
        },
        _ => None,
    }
}

fn element_type_of(t: &IrType) -> (r: Option<IrType>)
    ensures
        r == element_type(*t),
{
    match t {
        IrType::Array(e, _) => Some((&**e).duplicate()),
        IrType::Slice(e) => Some((&**e).duplicate()),
        IrType::Str => Some(IrType::Int { bits: 8, signed: false }),
        _ => None,
    }
}

fn sliced_type_of(t: &IrType) -> (r: Option<IrType>)
    ensures
        r == match *t {
            IrType::Array(e, _) => Some(IrType::Slice(e)),
            IrType::Slice(_) => Some(*t),
            IrType::Str => Some(*t),
            _ => None,
        },
{
    match t {
        IrType::Array(e, _) => Some(IrType::Slice(Box::new((&**e).duplicate()))),
        IrType::Slice(_) => Some(t.duplicate()),
        IrType::Str => Some(IrType::Str),
        _ => None,
    }
}


impl TypeVisitor {
    /// The type of the location `path` names, with the generic arguments of
    /// this context substituted, where the analysis knows it.
    pub fn get_path_rustc_type(&self, path: &Path) -> (r: Option<IrType>)
        ensures
            r == match path_type(*path, self.local_types@) {
                Some(t) => Some(specialized(t, self.generic_arguments@)),
                None => None,
            },
    {
        match self.get_unspecialized_path_type(path) {
            Some(t) => Some(self.specialize_type(&t, &self.generic_arguments)),
            None => None,
        }
    }

    fn get_unspecialized_path_type(&self, path: &Path) -> (r: Option<IrType>)
        ensures
            r == path_type(*path, self.local_types@),
        decreases path,
    {
        match path {
            Path::Qualified { qualifier, selector } => match self.get_unspecialized_path_type(&**qualifier) {
                Some(t) => self.get_type_for_projection_element(&t, selector),
                None => None,
            },
            Path::Result => if self.local_types.len() > 0 {
                Some(self.local_types[0].duplicate())
            } else {
                None
            },
            Path::Parameter(n) => if (*n as usize) < self.local_types.len() && *n <= usize::MAX as u64 {
                Some(self.local_types[*n as usize].duplicate())
            } else {
                None
            },
            Path::Local(n) => if (*n as usize) < self.local_types.len() && *n <= usize::MAX as u64 {
                Some(self.local_types[*n as usize].duplicate())
            } else {
                None
            },
            _ => None,
        }
    }
}

impl TypeVisitor {
    /// The type of the part of a `t` that `selector` selects, where known.
    pub fn get_type_for_projection_element(&self, t: &IrType, selector: &PathSelector) -> (r: Option<IrType>)
        ensures
            r == selected_type(*t, *selector),
    {
        match selector {
            PathSelector::Deref => match t {
                IrType::Ref(target) => Some((&**target).duplicate()),
                IrType::RawPtr(target) => Some((&**target).duplicate()),
                IrType::Boxed(target) => Some((&**target).duplicate()),
                _ => None,
            },
            PathSelector::Field(k) => match t {
                IrType::Tuple(ts) => match (&**ts).get(*k) {
                    Some(f) => Some(f.duplicate()),
                    None => None,
                },
                IrType::Struct { fields, .. } => match (&**fields).get(*k) {
                    Some(f) => Some(f.duplicate()),
                    None => None,
                },
                IrType::Ref(target) => pointer_part_of(&**target, *k),
                IrType::RawPtr(target) => pointer_part_of(&**target, *k),
                IrType::Boxed(target) => pointer_part_of(&**target, *k),
                _ => None,
            },
            PathSelector::UnionField { case_index, .. } => match t {
                IrType::Union(ts) => match (&**ts).get(*case_index) {
                    Some(f) => Some(f.duplicate()),
                    None => None,
                },
                _ => None,
            },
            PathSelector::Downcast { variant } => match t {
                IrType::Enum { variants, .. } => match (&**variants).get(*variant) {
                    Some(fields) => Some(IrType::Tuple(Box::new(fields.duplicate()))),
                    None => None,
                },
                _ => None,
            },
            PathSelector::Discriminant => match t {
                IrType::Enum { discriminant_bits, discriminant_signed, .. } => Some(
                    IrType::Int { bits: *discriminant_bits, signed: *discriminant_signed },
                ),
                _ => None,
            },
            PathSelector::Index(_) => element_type_of(t),
            PathSelector::ConstantIndex { .. } => element_type_of(t),
            PathSelector::Slice(_) => sliced_type_of(t),
            PathSelector::ConstantSlice { .. } => sliced_type_of(t),
            PathSelector::Layout => Some(IrType::Opaque(LAYOUT_TYPE_ID)),
            PathSelector::TagField => Some(IrType::Int { bits: 8, signed: true }),
            PathSelector::Function => None,
        }
    }

    /// `t` with each generic parameter replaced by its actual argument.
    pub fn specialize_type(&self, t: &IrType, args: &Vec<IrType>) -> (r: IrType)
        ensures
            r == specialized(*t, args@),
        decreases t,
    {
        match t {
            IrType::Param(k) => if (args.len() as u64) > *k {
                args[*k as usize].duplicate()
            } else {
                t.duplicate()
            },
            IrType::Ref(e) => IrType::Ref(Box::new(self.specialize_type(&**e, args))),
            IrType::RawPtr(e) => IrType::RawPtr(Box::new(self.specialize_type(&**e, args))),
            IrType::Boxed(e) => IrType::Boxed(Box::new(self.specialize_type(&**e, args))),
            IrType::Array(e, n) => IrType::Array(Box::new(self.specialize_type(&**e, args)), *n),
            IrType::Slice(e) => IrType::Slice(Box::new(self.specialize_type(&**e, args))),
            IrType::Tuple(ts) => IrType::Tuple(Box::new(specialize_list(self, &**ts, args))),
            IrType::Struct { fields, transparent } => IrType::Struct {
                fields: Box::new(specialize_list(self, &**fields, args)),
                transparent: *transparent,
            },
            IrType::Union(ts) => IrType::Union(Box::new(specialize_list(self, &**ts, args))),
            IrType::Enum { variants, discriminant_bits, discriminant_signed } => IrType::Enum {
                variants: Box::new(specialize_variants(self, &**variants, args)),
                discriminant_bits: *discriminant_bits,
                discriminant_signed: *discriminant_signed,
            },
            _ => t.duplicate(),
        }
    }

    /// The type inside any number of transparent wrappers around `t`.
    pub fn remove_transparent_wrapper(&self, t: &IrType) -> (r: IrType)
        ensures
            r == unwrapped(*t),
        decreases t,
    {
        match t {
            IrType::Struct { fields, transparent: true } => match &**fields {
                TypeList::Cons(f, _) => self.remove_transparent_wrapper(&**f),
                TypeList::Nil => t.duplicate(),
            },
            _ => t.duplicate(),
        }
    }

    /// Whether a value of type `t` is a pointer that carries a length.
    pub fn is_slice_pointer(&self, t: &IrType) -> (r: bool)
        ensures
            r == match *t {
                IrType::Ref(e) => is_unsized_sequence(*e),
                IrType::RawPtr(e) => is_unsized_sequence(*e),
                IrType::Boxed(e) => is_unsized_sequence(*e),
                _ => false,
            },
    {
        match t {
            IrType::Ref(e) | IrType::RawPtr(e) | IrType::Boxed(e) => match &**e {
                IrType::Slice(_) | IrType::Str => true,
                _ => false,
            },
            _ => false,
        }
    }

    /// The type a value of type `t` points to, or `t` itself where it is no pointer.
    pub fn get_dereferenced_type(&self, t: &IrType) -> (r: IrType)
        ensures
            r == match *t {
                IrType::Ref(e) => *e,
                IrType::RawPtr(e) => *e,
                IrType::Boxed(e) => *e,
                _ => *t,
            },
    {
        match t {
            IrType::Ref(e) | IrType::RawPtr(e) | IrType::Boxed(e) => (&**e).duplicate(),
            _ => t.duplicate(),
        }
    }

    /// The element type of an array, slice or string.
    pub fn get_element_type(&self, t: &IrType) -> (r: Option<IrType>)
        ensures
            r == element_type(*t),
    {
        element_type_of(t)
    }
}

/// `t` with each generic parameter `Param(k)` replaced by `args[k]`, where given.
pub open spec fn specialized(t: IrType, args: Seq<IrType>) -> IrType
    decreases t,
{
    match t {
        IrType::Param(k) => if k < args.len() {
            args[k as int]
        } else {
            t
        },
        IrType::Ref(e) => IrType::Ref(Box::new(specialized(*e, args))),
        IrType::RawPtr(e) => IrType::RawPtr(Box::new(specialized(*e, args))),
        IrType::Boxed(e) => IrType::Boxed(Box::new(specialized(*e, args))),
        IrType::Array(e, n) => IrType::Array(Box::new(specialized(*e, args)), n),
        IrType::Slice(e) => IrType::Slice(Box::new(specialized(*e, args))),
        IrType::Tuple(ts) => IrType::Tuple(Box::new(specialized_list(*ts, args))),
        IrType::Struct { fields, transparent } => IrType::Struct {
            fields: Box::new(specialized_list(*fields, args)),
            transparent,
        },
        IrType::Union(ts) => IrType::Union(Box::new(specialized_list(*ts, args))),
        IrType::Enum { variants, discriminant_bits, discriminant_signed } => IrType::Enum {
            variants: Box::new(specialized_variants(*variants, args)),
            discriminant_bits,
            discriminant_signed,
        },
        _ => t,
    }
}

/// Each type of `ts`, specialized.
pub open spec fn specialized_list(ts: TypeList, args: Seq<IrType>) -> TypeList
    decreases ts,
{
    match ts {
        TypeList::Nil => TypeList::Nil,
        TypeList::Cons(t, rest) => TypeList::Cons(
            Box::new(specialized(*t, args)),
            Box::new(specialized_list(*rest, args)),
        ),
    }
}

/// Each variant of `vs`, specialized.
pub open spec fn specialized_variants(vs: VariantList, args: Seq<IrType>) -> VariantList
    decreases vs,
{
    match vs {
        VariantList::Nil => VariantList::Nil,
        VariantList::Cons(fields, rest) => VariantList::Cons(
            Box::new(specialized_list(*fields, args)),
            Box::new(specialized_variants(*rest, args)),
        ),
    }
}


fn specialize_list(visitor: &TypeVisitor, ts: &TypeList, args: &Vec<IrType>) -> (r: TypeList)
    ensures
        r == specialized_list(*ts, args@),
    decreases ts,
{
    match ts {
        TypeList::Nil => TypeList::Nil,
        TypeList::Cons(t, rest) => TypeList::Cons(
            Box::new(visitor.specialize_type(&**t, args)),
            Box::new(specialize_list(visitor, &**rest, args)),
        ),
    }
}

fn specialize_variants(visitor: &TypeVisitor, vs: &VariantList, args: &Vec<IrType>) -> (r: VariantList)
    ensures
        r == specialized_variants(*vs, args@),
    decreases vs,
{
    match vs {
        VariantList::Nil => VariantList::Nil,
        VariantList::Cons(fields, rest) => VariantList::Cons(
            Box::new(specialize_list(visitor, &**fields, args)),
            Box::new(specialize_variants(visitor, &**rest, args)),
        ),
    }
}

/// The type a transparent wrapper wraps, through any number of wrappers.
pub open spec fn unwrapped(t: IrType) -> IrType
    decreases t,
{
    match t {
        IrType::Struct { fields, transparent: true } => match *fields {
            TypeList::Cons(f, _) => unwrapped(*f),
            TypeList::Nil => t,
        },
        _ => t,
    }
}

/// Whether `t` is a struct that only wraps its first field.
pub fn is_transparent_wrapper(t: &IrType) -> (r: bool)
    ensures
        r == (*t matches IrType::Struct { fields, transparent: true } && *fields is Cons),
{
    match t {
        IrType::Struct { fields, transparent: true } => match &**fields {
            TypeList::Cons(_, _) => true,
            TypeList::Nil => false,
        },
        _ => false,
    }
}



} // verus!
