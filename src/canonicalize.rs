//! Canonical form of paths: a dereference of a known reference is replaced by
//! the referenced path.

use vstd::prelude::*;
use crate::body_visitor::BodyVisitor;
use crate::condition::SmtSolver;
use crate::environment::Environment;
use crate::tag_layer::is_rooted_by_parameter;
use crate::expression::{ConstantDomain, Expression};
use crate::types::IrType;
use crate::path::{Path, PathSelector};

verus! {

/// The path that dereferencing `q` leads to, when `q` is a computed reference
/// or is bound to a reference in `m`.
pub open spec fn deref_target(q: Path, m: Map<Path, Expression>) -> Option<Path> {
    match q {
        Path::Computed(e) => match *e {
            Expression::Reference(t) => Some(t),
            _ => None,
        },
        _ => if m.contains_key(q) && m[q] is Reference {
            Some(m[q]->Reference_0)
        } else {
            None
        },
    }
}

/// The canonical form of `p` under the bindings `m`.
pub open spec fn canonical_path(p: Path, m: Map<Path, Expression>) -> Path
    decreases p,
{
    match p {
        Path::Qualified { qualifier, selector } => {
            let cq = canonical_path(*qualifier, m);
            if selector == PathSelector::Deref {
                match deref_target(cq, m) {
                    Some(t) => t,
                    None => Path::Qualified { qualifier: Box::new(cq), selector },
                }
            } else {
                Path::Qualified { qualifier: Box::new(cq), selector }
            }
        },
        Path::Computed(e) => match *e {
            Expression::Reference(t) => Path::Computed(
                Box::new(Expression::Reference(canonical_path(t, m))),
            ),
            _ => p,
        },
        _ => p,
    }
}

/// `p` has no dereference left that canonicalization would resolve.
pub open spec fn is_canonical(p: Path, m: Map<Path, Expression>) -> bool
    decreases p,
{
    match p {
        Path::Qualified { qualifier, selector } => is_canonical(*qualifier, m) && (selector
            == PathSelector::Deref ==> deref_target(*qualifier, m) is None),
        Path::Computed(e) => match *e {
            Expression::Reference(t) => is_canonical(t, m),
            _ => true,
        },
        _ => true,
    }
}

/// Every reference bound in `m` refers to a canonical path.
pub open spec fn references_canonical(m: Map<Path, Expression>) -> bool {
    forall|k: Path|
        #![trigger m[k]]
        m.contains_key(k) && m[k] is Reference ==> is_canonical(m[k]->Reference_0, m)
}

impl Path {
    /// The canonical form of this path under the bindings of `env`.
    pub fn canonicalize(&self, env: &Environment) -> (r: Path)
        ensures
            r == canonical_path(*self, env@),
        decreases self,
    {
        match self {
            Path::Qualified { qualifier, selector } => {
                let cq = (&**qualifier).canonicalize(env);
                if *selector == PathSelector::Deref {
                    if let Path::Computed(e) = &cq {
                        if let Expression::Reference(t) = &**e {
                            return t.duplicate();
                        }
                        return Path::new_qualified(cq, *selector);
                    }
                    if let Some(Expression::Reference(t)) = env.value_at(&cq) {
                        return t.duplicate();
                    }
                    Path::new_qualified(cq, *selector)
                } else {
                    Path::new_qualified(cq, *selector)
                }
            },
            Path::Computed(e) => match &**e {
                Expression::Reference(t) => Path::Computed(
                    Box::new(Expression::Reference(t.canonicalize(env))),
                ),
                _ => self.duplicate(),
            },
            _ => self.duplicate(),
        }
    }
}

/// The value at `path`, read as a `result_type`: the value a computed path
/// names, as it stands; else the binding of the canonical form; else zero for an integer
/// in a zeroed heap block; else the unknown it names (the initial value
/// where it is a parameter's).
pub open spec fn looked_up(m: Map<Path, Expression>, path: Path, result_type: IrType) -> Expression {
    let c = canonical_path(path, m);
    if path is Computed {
        *(path->Computed_0)
    } else if m.contains_key(c) {
        m[c]
    } else if c.root() matches Path::HeapBlock { is_zeroed: true, .. } && result_type is Int {
        if result_type->Int_signed {
            Expression::CompileTimeConstant(ConstantDomain::I128(0))
        } else {
            Expression::CompileTimeConstant(ConstantDomain::U128(0))
        }
    } else if c.root() is Parameter {
        Expression::InitialParameterValue(c)
    } else {
        Expression::Variable(c)
    }
}

/// The root of `path`.
pub fn root_of(path: &Path) -> (r: &Path)
    ensures
        *r == path.root(),
    decreases path,
{
    match path {
        Path::Qualified { qualifier, .. } => root_of(&**qualifier),
        _ => path,
    }
}

impl<S: SmtSolver> BodyVisitor<S> {
    /// The current value at `path`, after canonicalizing it, read as a `result_type`.
    pub fn lookup_path_and_refine_result(&self, path: &Path, result_type: &IrType) -> (r: Expression)
        requires
            self.wf(),
        ensures
            r == looked_up(self.current_environment@, *path, *result_type),
    {
        if let Path::Computed(e) = path {
            return (&**e).duplicate();
        }
        let c = path.canonicalize(&self.current_environment);
        match self.current_environment.value_at(&c) {
            Some(v) => v.duplicate(),
            None => {
                if let (Path::HeapBlock { is_zeroed: true, .. }, IrType::Int { signed, .. }) = (
                    root_of(&c),
                    result_type,
                ) {
                    if *signed {
                        return Expression::CompileTimeConstant(ConstantDomain::I128(0));
                    } else {
                        return Expression::CompileTimeConstant(ConstantDomain::U128(0));
                    }
                }
                if is_rooted_by_parameter(&c) {
                    Expression::InitialParameterValue(c)
                } else {
                    Expression::Variable(c)
                }
            },
        }
    }
}

/// Canonicalization yields a canonical path.
pub proof fn lemma_canonical_path_is_canonical(p: Path, m: Map<Path, Expression>)
    requires
        references_canonical(m),
    ensures
        is_canonical(canonical_path(p, m), m),
    decreases p,
{
    match p {
        Path::Qualified { qualifier, selector } => {
            lemma_canonical_path_is_canonical(*qualifier, m);
            let cq = canonical_path(*qualifier, m);
            if selector == PathSelector::Deref {
                match deref_target(cq, m) {
                    Some(t) => {
                        if !(cq is Computed) {
                            assert(m[cq] is Reference);
                        }
                    },
                    None => {},
                }
            }
        },
        Path::Computed(e) => match *e {
            Expression::Reference(t) => {
                lemma_canonical_path_is_canonical(t, m);
            },
            _ => {},
        },
        _ => {},
    }
}

/// A canonical path is its own canonical form.
pub proof fn lemma_canonical_path_fixes_canonical(p: Path, m: Map<Path, Expression>)
    requires
        is_canonical(p, m),
    ensures
        canonical_path(p, m) == p,
    decreases p,
{
    match p {
        Path::Qualified { qualifier, selector } => {
            lemma_canonical_path_fixes_canonical(*qualifier, m);
        },
        Path::Computed(e) => match *e {
            Expression::Reference(t) => {
                lemma_canonical_path_fixes_canonical(t, m);
            },
            _ => {},
        },
        _ => {},
    }
}

/// Canonicalization is idempotent: `canonicalize(canonicalize(p)) == canonicalize(p)`,
/// for bindings whose references are themselves canonical.
pub proof fn lemma_canonicalize_idempotent(p: Path, m: Map<Path, Expression>)
    requires
        references_canonical(m),
    ensures
        canonical_path(canonical_path(p, m), m) == canonical_path(p, m),
{
    lemma_canonical_path_is_canonical(p, m);
    lemma_canonical_path_fixes_canonical(canonical_path(p, m), m);
}

} // verus!
