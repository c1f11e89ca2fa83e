//! Copying and moving the bindings of a path, and everything stored within
//! it, to another path.

use vstd::prelude::*;
use crate::body_visitor::{layout_effect, BodyVisitor, Location, Warning};
use crate::canonicalize::{canonical_path, root_of};
use crate::condition::SmtSolver;
use crate::environment::{
    has_key, keys_unique, lemma_map_of_index, lemma_map_of_push, map_of, without_where, without_within,
    Environment,
};
use crate::expression::{ConstantDomain, Expression};
use crate::layout::transmuted;
use crate::persistent_map::trie_remove;
use crate::tag_layer::attached_at_path;
use crate::path::{lemma_replaced_root_within, Path, PathSelector};
use crate::types::{path_type, specialized, IrType, TypeList, TypeVisitor};

verus! {

/// The bindings of `m` within `source`, re-rooted at `target`.
pub open spec fn rerooted(m: Map<Path, Expression>, source: Path, target: Path) -> Map<Path, Expression> {
    Map::new(
        |k: Path| exists|q: Path| #[trigger] m.contains_key(q) && q.within(source) && k == q.replaced_root(source, target),
        |k: Path| m[choose|q: Path| #[trigger] m.contains_key(q) && q.within(source) && k == q.replaced_root(source, target)],
    )
}

/// `m` after elements `from..from + count` of the sequence at `q` are bound
/// to `value`, each with a strong update.
pub open spec fn elements_set(m: Map<Path, Expression>, q: Path, from: u64, count: nat, value: Expression) -> Map<
    Path,
    Expression,
>
    decreases count,
{
    if count == 0 {
        m
    } else {
        let p = element_path(q, (from + count - 1) as u64);
        without_within(elements_set(m, q, from, (count - 1) as nat, value), p).insert(p, value)
    }
}

/// The bindings and warnings after `path` is bound to `value`: see
/// `BodyVisitor::update_value_at`.
pub open spec fn updated(
    m: Map<Path, Expression>,
    warnings: Seq<Warning>,
    types: TypeVisitor,
    path: Path,
    value: Expression,
) -> (Map<Path, Expression>, Seq<Warning>) {
    let t = canonical_path(path, m);
    let strong = without_within(m, t).insert(t, value);
    match t {
        Path::Qualified { qualifier, selector: PathSelector::Slice(count) } => if count < MAX_ELEMENTS_TO_TRACK {
            (elements_set(m, *qualifier, 0, count as nat, value), warnings)
        } else {
            (strong, warnings)
        },
        Path::Qualified { qualifier, selector: PathSelector::ConstantSlice { from, to, from_end } } =>
            match constant_slice(from, to, from_end, known_length(m, *qualifier)) {
            Some((start, end)) => (elements_set(m, *qualifier, start, (end - start) as nat, value), warnings),
            None => (strong, warnings),
        },
        Path::Qualified { qualifier, selector: PathSelector::UnionField { case_index, num_cases } } =>
            match union_cases_of(types, *qualifier) {
            Some(cases) => match cases.at(case_index as nat) {
                Some(case_type) => {
                    let (m1, w1) = cases_transmuted(strong, warnings, t, case_type, *qualifier, num_cases, cases, Some(case_index), num_cases as nat);
                    (without_within(m1, t).insert(t, value), w1)
                },
                None => (strong, warnings),
            },
            None => (strong, warnings),
        },
        _ => (strong, warnings),
    }
}

/// The bindings after the storage a promoted constant refers to, bound
/// within `referenced` in `exit`, is copied to the heap block `block` (whose
/// layout is bound first) and `root` is bound to a reference to the block
/// (for a slice pointer: its pointer field, and its length field to the
/// length recorded for `referenced`).
pub open spec fn promoted_bindings(
    m: Map<Path, Expression>,
    block: Path,
    exit: Map<Path, Expression>,
    referenced: Path,
    size: u128,
    alignment: u128,
    root: Path,
    slice_pointer: bool,
) -> Map<Path, Expression> {
    let layout = Path::Qualified { qualifier: Box::new(block), selector: PathSelector::Layout };
    let allocated = without_within(m, layout).insert(
        layout,
        Expression::HeapBlockLayout { length: size, alignment, source: crate::expression::LayoutSource::Alloc },
    );
    let copied_in = allocated.union_prefer_right(rerooted(exit, referenced, block));
    if slice_pointer {
        let with_pointer = copied_in.insert(
            Path::Qualified { qualifier: Box::new(root), selector: PathSelector::Field(0) },
            Expression::Reference(block),
        );
        let exit_length = Path::Qualified { qualifier: Box::new(referenced), selector: PathSelector::Field(1) };
        if exit.contains_key(exit_length) {
            with_pointer.insert(
                Path::Qualified { qualifier: Box::new(root), selector: PathSelector::Field(1) },
                exit[exit_length],
            )
        } else {
            with_pointer
        }
    } else {
        copied_in.insert(root, Expression::Reference(block))
    }
}

/// The cases of the union at `q`, where its type is known to be a union.
pub open spec fn union_cases_of(types: TypeVisitor, q: Path) -> Option<TypeList> {
    match path_type(q, types.local_types@) {
        Some(t) => match specialized(t, types.generic_arguments@) {
            IrType::Union(ts) => Some(*ts),
            _ => None,
        },
        None => None,
    }
}

/// The bindings and warnings after the value of type `source_type` at
/// `source` is copied bit for bit into each of the first `count` cases of
/// the union at `q`, whose case types are `cases`, but the case `skip`.
pub open spec fn cases_transmuted(
    m: Map<Path, Expression>,
    warnings: Seq<Warning>,
    source: Path,
    source_type: IrType,
    q: Path,
    num_cases: u64,
    cases: TypeList,
    skip: Option<u64>,
    count: nat,
) -> (Map<Path, Expression>, Seq<Warning>)
    decreases count,
{
    if count == 0 {
        (m, warnings)
    } else {
        let (m0, w0) = cases_transmuted(m, warnings, source, source_type, q, num_cases, cases, skip, (count - 1) as nat);
        if skip == Some((count - 1) as u64) {
            (m0, w0)
        } else {
            match cases.at((count - 1) as nat) {
            Some(case_type) => transmuted(
                m0,
                w0,
                source,
                source_type,
                Path::Qualified {
                    qualifier: Box::new(q),
                    selector: PathSelector::UnionField { case_index: (count - 1) as u64, num_cases },
                },
                    case_type,
                ),
                None => (m0, w0),
            }
        }
    }
}

/// The union whose case `t` is, with its number of cases and their types,
/// where the union's type is known.
pub open spec fn union_target(types: TypeVisitor, t: Path) -> Option<(Path, u64, TypeList)> {
    match t {
        Path::Qualified { qualifier, selector: PathSelector::UnionField { num_cases, .. } } => match union_cases_of(types, *qualifier) {
            Some(cases) => Some((*qualifier, num_cases, cases)),
            None => None,
        },
        _ => None,
    }
}

/// Whether the binding of `q` in `m` is carried along when what is stored
/// at `source` is copied to `target`: heap-block layouts are not copied into
/// local storage.
pub open spec fn carried(m: Map<Path, Expression>, q: Path, source: Path, target: Path) -> bool {
    &&& m.contains_key(q)
    &&& q.within(source)
    &&& (rooted_by_non_local_structure(target) || !(m[q] is HeapBlockLayout))
}

/// The path the binding of `q` lands on: re-rooted at `target`, then canonicalized.
pub open spec fn copy_key(m: Map<Path, Expression>, q: Path, source: Path, target: Path) -> Path {
    canonical_path(q.replaced_root(source, target), m)
}

/// Whether some carried binding lands on `k`.
pub open spec fn is_copy_key(m: Map<Path, Expression>, k: Path, source: Path, target: Path) -> bool {
    exists|q: Path| #[trigger] carried(m, q, source, target) && copy_key(m, q, source, target) == k
}

/// The entry `e` is a carried binding of `m` landed on its path.
pub open spec fn landed(m: Map<Path, Expression>, e: (Path, Expression), source: Path, target: Path) -> bool {
    exists|q: Path| #[trigger] carried(m, q, source, target) && copy_key(m, q, source, target) == e.0 && e.1 == m[q]
}

/// `r` is `m` after copying (or, with `move_elements`, moving) what is
/// stored at `source` to `target`: the old bindings within `target` are
/// invalidated, a move drops the source's bindings but those reached through
/// a dereference, and each carried binding lands on its re-rooted,
/// canonicalized path. Where two land on one path, one of them is kept:
/// which one depends on the order in which the map hands them out.
pub open spec fn canonically_copied(
    r: Map<Path, Expression>,
    m: Map<Path, Expression>,
    source: Path,
    target: Path,
    move_elements: bool,
) -> bool {
    let base = without_within(
        if move_elements {
            without_where(m, source, true, false)
        } else {
            m
        },
        target,
    );
    &&& forall|k: Path| #[trigger] r.contains_key(k) <==> (base.contains_key(k) || is_copy_key(m, k, source, target))
    &&& forall|k: Path|
        #[trigger] r.contains_key(k) && is_copy_key(m, k, source, target) ==> exists|q: Path|
            #[trigger] carried(m, q, source, target) && copy_key(m, q, source, target) == k && r[k] == m[q]
    &&& forall|k: Path|
        #[trigger] r.contains_key(k) && !is_copy_key(m, k, source, target) ==> r[k] == base[k]
}

/// Whether `p` lies in storage that outlives the current call: a static, a
/// heap block or what a parameter reaches.
pub open spec fn rooted_by_non_local_structure(p: Path) -> bool {
    p.root() is Static || p.root() is HeapBlock || p.root() is Parameter
}

/// `m` after copying (or, with `move_elements`, moving) what is stored at
/// `source` to `target`: the old bindings within `target` are invalidated
/// and every binding within `source` is re-rooted at `target`. A move drops
/// the source's bindings except those reached through a dereference, which
/// the source does not own. Heap-block layouts are not copied into local
/// storage.
pub open spec fn copied(m: Map<Path, Expression>, source: Path, target: Path, move_elements: bool) -> Map<
    Path,
    Expression,
> {
    let base = if move_elements {
        without_where(m, source, true, false)
    } else {
        m
    };
    let with_copies = without_within(base, target).union_prefer_right(rerooted(m, source, target));
    if rooted_by_non_local_structure(target) {
        with_copies
    } else {
        without_where(with_copies, target, false, true)
    }
}

pub proof fn lemma_rooted_deeper(p: Path, q: Path)
    requires
        p.rooted_by(q),
    ensures
        p.depth() > q.depth(),
    decreases p,
{
    match p {
        Path::Qualified { qualifier, .. } => {
            if *qualifier != q {
                lemma_rooted_deeper(*qualifier, q);
            }
        },
        _ => {},
    }
}

pub proof fn lemma_replaced_root_depth(p: Path, source: Path, target: Path)
    requires
        p.within(source),
    ensures
        p.replaced_root(source, target).depth() + source.depth() == p.depth() + target.depth(),
    decreases p,
{
    if p != source {
        match p {
            Path::Qualified { qualifier, .. } => {
                if *qualifier != source {
                    lemma_replaced_root_depth(*qualifier, source, target);
                }
            },
            _ => {},
        }
    }
}

/// Re-rooting is one to one on the paths within the old root.
pub proof fn lemma_replaced_root_injective(p1: Path, p2: Path, source: Path, target: Path)
    requires
        p1.within(source),
        p2.within(source),
        p1.replaced_root(source, target) == p2.replaced_root(source, target),
    ensures
        p1 == p2,
    decreases p1,
{
    lemma_replaced_root_depth(p1, source, target);
    lemma_replaced_root_depth(p2, source, target);
    if p1 != source && p2 != source {
        match (p1, p2) {
            (Path::Qualified { qualifier: q1, .. }, Path::Qualified { qualifier: q2, .. }) => {
                if *q1 == source {
                    if *q2 != source {
                        lemma_rooted_deeper(*q2, source);
                    }
                } else if *q2 == source {
                    lemma_rooted_deeper(*q1, source);
                } else {
                    lemma_replaced_root_injective(*q1, *q2, source, target);
                }
            },
            _ => {},
        }
    } else if p1 == source && p2 != source {
        lemma_rooted_deeper(p2, source);
    } else if p2 == source && p1 != source {
        lemma_rooted_deeper(p1, source);
    }
}

/// The entries of `s`, in order, whose keys are within `source`, re-rooted at `target`.
pub open spec fn rerooted_entries(s: Seq<(Path, Expression)>, source: Path, target: Path) -> Seq<
    (Path, Expression),
>
    decreases s.len(),
{
    if s.len() == 0 {
        Seq::empty()
    } else {
        let prev = rerooted_entries(s.drop_last(), source, target);
        let e = s.last();
        if e.0.within(source) {
            prev.push((e.0.replaced_root(source, target), e.1))
        } else {
            prev
        }
    }
}

impl Environment {
    /// The bindings within `source`, re-rooted at `target`, one entry per path.
    fn collect_rerooted(&self, source: &Path, target: &Path) -> (r: Vec<(Path, Expression)>)
        ensures
            keys_unique(r@),
            map_of(r@) == rerooted(self@, *source, *target),
    {
        let entries = self.entries();
        let mut r: Vec<(Path, Expression)> = Vec::new();
        let n = entries.len();
        let mut i: usize = 0;
        while i < n
            invariant
                n == entries@.len(),
                i <= n,
                r@ == rerooted_entries(entries@.take(i as int), *source, *target),
            decreases n - i,
        {
            let k = &entries[i].0;
            proof {
                assert(entries@.take(i as int + 1).drop_last() =~= entries@.take(i as int));
            }
            if k.is_within(source) {
                r.push((k.replace_root(source, target), entries[i].1.duplicate()));
            }
            i += 1;
        }
        proof {
            assert(entries@.take(n as int) =~= entries@);
            lemma_rerooted_entries(entries@, *source, *target);
        }
        r
    }

    /// Copies (or, with `move_elements`, moves) the value at `source` and
    /// everything stored within it to `target`, after invalidating what was
    /// stored within `target`; each path is re-rooted as it stands. Used for
    /// the elements of an expanded slice, whose paths are already canonical.
    pub fn copy_elements_verbatim(&mut self, target: &Path, source: &Path, move_elements: bool)
        ensures
            final(self)@ == copied(old(self)@, *source, *target, move_elements),
            final(self).entry_condition == old(self).entry_condition,
    {
        let entries = self.collect_rerooted(source, target);
        let ghost m = self@;
        if move_elements {
            self.remove_within_where(source, true, false);
        }
        self.remove_within(target);
        let ghost base = self@;
        let n = entries.len();
        let mut i: usize = 0;
        proof {
            assert(map_of(entries@.take(0)) =~= Map::<Path, Expression>::empty());
            assert(base.union_prefer_right(Map::<Path, Expression>::empty()) =~= base);
        }
        while i < n
            invariant
                n == entries@.len(),
                i <= n,
                keys_unique(entries@),
                self@ == base.union_prefer_right(map_of(entries@.take(i as int))),
                self.entry_condition == old(self).entry_condition,
            decreases n - i,
        {
            let (k, v) = (entries[i].0.duplicate(), entries[i].1.duplicate());
            proof {
                let t = entries@.take(i as int);
                assert(entries@.take(i as int + 1) =~= t.push((k, v)));
                assert(keys_unique(t));
                assert(!has_key(t, k)) by {
                    if has_key(t, k) {
                        let j = choose|j: int| 0 <= j < t.len() && t[j].0 == k;
                        assert(entries@[j].0 != entries@[i as int].0);
                    }
                }
                lemma_map_of_push(t, k, v);
                assert(base.union_prefer_right(map_of(t)).insert(k, v) =~= base.union_prefer_right(
                    map_of(t).insert(k, v),
                ));
            }
            self.insert(k, v);
            i += 1;
        }
        proof {
            assert(entries@.take(n as int) =~= entries@);
        }
        if !is_rooted_by_non_local_structure(target) {
            self.remove_within_where(target, false, true);
        }
    }
}

impl Environment {
    /// Copies (or, with `move_elements`, moves) the value at `source` and
    /// everything stored within it to `target`, after invalidating what was
    /// stored within `target`; each binding lands on its re-rooted path in
    /// canonical form.
    pub fn copy_or_move_elements(&mut self, target: &Path, source: &Path, move_elements: bool)
        ensures
            canonically_copied(final(self)@, old(self)@, *source, *target, move_elements),
            final(self).entry_condition == old(self).entry_condition,
    {
        let ghost m = self@;
        let entries = self.entries();
        let keep_layouts = is_rooted_by_non_local_structure(target);
        let mut collected: Vec<(Path, Expression)> = Vec::new();
        let n = entries.len();
        let mut i: usize = 0;
        while i < n
            invariant
                n == entries@.len(),
                i <= n,
                keys_unique(entries@),
                map_of(entries@) == m,
                self@ == m,
                keep_layouts == rooted_by_non_local_structure(*target),
                forall|j: int| 0 <= j < collected@.len() ==> #[trigger] landed(m, collected@[j], *source, *target),
                forall|a: int|
                    0 <= a < i && carried(m, #[trigger] entries@[a].0, *source, *target) ==> exists|j: int|
                        0 <= j < collected@.len() && collected@[j].0 == copy_key(m, entries@[a].0, *source, *target),
            decreases n - i,
        {
            proof {
                lemma_map_of_index(entries@, i as int);
            }
            let ghost before = collected@;
            let k = &entries[i].0;
            let is_layout = match &entries[i].1 {
                Expression::HeapBlockLayout { .. } => true,
                _ => false,
            };
            if k.is_within(source) && (keep_layouts || !is_layout) {
                let landing = k.replace_root(source, target).canonicalize(self);
                collected.push((landing, entries[i].1.duplicate()));
                proof {
                    assert(carried(m, entries@[i as int].0, *source, *target));
                    assert forall|j: int| 0 <= j < collected@.len() implies #[trigger] landed(m, collected@[j], *source, *target) by {
                        if j < before.len() {
                            assert(collected@[j] == before[j]);
                        } else {
                            assert(copy_key(m, entries@[i as int].0, *source, *target) == collected@[j].0);
                        }
                    }
                    assert forall|a: int|
                        0 <= a < i + 1 && carried(m, #[trigger] entries@[a].0, *source, *target) implies exists|j: int|
                            0 <= j < collected@.len() && collected@[j].0 == copy_key(m, entries@[a].0, *source, *target) by {
                        if a < i {
                            let j = choose|j: int| 0 <= j < before.len() && before[j].0 == copy_key(m, entries@[a].0, *source, *target);
                            assert(collected@[j] == before[j]);
                        } else {
                            assert(collected@[before.len() as int].0 == copy_key(m, entries@[a].0, *source, *target));
                        }
                    }
                }
            }
            i += 1;
        }
        proof {
            assert forall|k: Path| is_copy_key(m, k, *source, *target) implies exists|j: int|
                0 <= j < collected@.len() && #[trigger] collected@[j].0 == k by {
                let q = choose|q: Path| #[trigger] carried(m, q, *source, *target) && copy_key(m, q, *source, *target) == k;
                let a = choose|a: int| 0 <= a < entries@.len() && entries@[a].0 == q;
                assert(carried(m, entries@[a].0, *source, *target));
            }
        }
        if move_elements {
            self.remove_within_where(source, true, false);
        }
        self.remove_within(target);
        let ghost base = self@;
        let c = collected.len();
        let mut j: usize = 0;
        while j < c
            invariant
                c == collected@.len(),
                j <= c,
                forall|k: Path| #[trigger] self@.contains_key(k) <==> (base.contains_key(k) || exists|a: int|
                    0 <= a < j && collected@[a].0 == k),
                forall|k: Path|
                    #[trigger] self@.contains_key(k) && (exists|a: int| 0 <= a < j && collected@[a].0 == k) ==> exists|a: int|
                        0 <= a < j && collected@[a].0 == k && self@[k] == collected@[a].1,
                forall|k: Path|
                    #[trigger] self@.contains_key(k) && !(exists|a: int| 0 <= a < j && collected@[a].0 == k) ==> self@[k] == base[k],
                self.entry_condition == old(self).entry_condition,
            decreases c - j,
        {
            let ghost prev = self@;
            let key = collected[j].0.duplicate();
            self.insert(key, collected[j].1.duplicate());
            proof {
                assert forall|k: Path| #[trigger] self@.contains_key(k) <==> (base.contains_key(k) || exists|a: int|
                    0 <= a < j + 1 && collected@[a].0 == k) by {
                    if k == collected@[j as int].0 {
                        assert(0 <= j < j + 1 && collected@[j as int].0 == k);
                    } else if exists|a: int| 0 <= a < j + 1 && collected@[a].0 == k {
                        let a = choose|a: int| 0 <= a < j + 1 && collected@[a].0 == k;
                        assert(a < j);
                        assert(prev.contains_key(k));
                    } else {
                        if prev.contains_key(k) {
                            assert(!(exists|a: int| 0 <= a < j && collected@[a].0 == k)) by {
                                if exists|a: int| 0 <= a < j && collected@[a].0 == k {
                                    let a = choose|a: int| 0 <= a < j && collected@[a].0 == k;
                                    assert(0 <= a < j + 1 && collected@[a].0 == k);
                                }
                            }
                        }
                    }
                }
                assert forall|k: Path|
                    #[trigger] self@.contains_key(k) && (exists|a: int| 0 <= a < j + 1 && collected@[a].0 == k) implies exists|a: int|
                        0 <= a < j + 1 && collected@[a].0 == k && self@[k] == collected@[a].1 by {
                    if k == collected@[j as int].0 {
                        assert(0 <= j < j + 1 && collected@[j as int].0 == k && self@[k] == collected@[j as int].1);
                    } else {
                        let a0 = choose|a: int| 0 <= a < j + 1 && collected@[a].0 == k;
                        assert(a0 < j);
                        assert(prev.contains_key(k));
                        let a = choose|a: int| 0 <= a < j && collected@[a].0 == k && prev[k] == collected@[a].1;
                        assert(0 <= a < j + 1 && collected@[a].0 == k && self@[k] == collected@[a].1);
                    }
                }
                assert forall|k: Path|
                    #[trigger] self@.contains_key(k) && !(exists|a: int| 0 <= a < j + 1 && collected@[a].0 == k) implies self@[k] == base[k] by {
                    assert(k != collected@[j as int].0) by {
                        if k == collected@[j as int].0 {
                            assert(0 <= j < j + 1 && collected@[j as int].0 == k);
                        }
                    }
                    assert(prev.contains_key(k));
                    assert(!(exists|a: int| 0 <= a < j && collected@[a].0 == k)) by {
                        if exists|a: int| 0 <= a < j && collected@[a].0 == k {
                            let a = choose|a: int| 0 <= a < j && collected@[a].0 == k;
                            assert(0 <= a < j + 1 && collected@[a].0 == k);
                        }
                    }
                }
            }
            j += 1;
        }
        proof {
            let r = self@;
            assert forall|k: Path| (exists|a: int| 0 <= a < c && collected@[a].0 == k) <==> is_copy_key(m, k, *source, *target) by {
                if exists|a: int| 0 <= a < c && collected@[a].0 == k {
                    let a = choose|a: int| 0 <= a < c && collected@[a].0 == k;
                    assert(landed(m, collected@[a], *source, *target));
                }
                if is_copy_key(m, k, *source, *target) {
                    let a = choose|a: int| 0 <= a < collected@.len() && #[trigger] collected@[a].0 == k;
                }
            }
            assert forall|k: Path|
                #[trigger] r.contains_key(k) && is_copy_key(m, k, *source, *target) implies exists|q: Path|
                    #[trigger] carried(m, q, *source, *target) && copy_key(m, q, *source, *target) == k && r[k] == m[q] by {
                let a = choose|a: int| 0 <= a < c && collected@[a].0 == k && r[k] == collected@[a].1;
                assert(landed(m, collected@[a], *source, *target));
            }
        }
    }
}

/// Whether `p` lies in storage that outlives the current call.
pub fn is_rooted_by_non_local_structure(p: &Path) -> (r: bool)
    ensures
        r == rooted_by_non_local_structure(*p),
{
    match root_of(p) {
        Path::Static(_) | Path::HeapBlock { .. } | Path::Parameter(_) => true,
        _ => false,
    }
}

impl<S: SmtSolver> BodyVisitor<S> {
    /// Copies the value of type `source_type` at `source` bit for bit into
    /// each of the `num_cases` cases of the union at `q`, of types `cases`,
    /// but the case `skip`.
    fn transmute_into_union_cases(
        &mut self,
        source: &Path,
        source_type: &IrType,
        q: &Path,
        num_cases: u64,
        cases: &TypeList,
        skip: Option<u64>,
    )
        requires
            old(self).wf(),
        ensures
            final(self).wf(),
            (final(self).current_environment@, final(self).buffered_diagnostics@) == cases_transmuted(
                old(self).current_environment@,
                old(self).buffered_diagnostics@,
                *source,
                *source_type,
                *q,
                num_cases,
                *cases,
                skip,
                num_cases as nat,
            ),
            final(self).current_environment.entry_condition
                == old(self).current_environment.entry_condition,
            final(self).heap_addresses == old(self).heap_addresses,
            final(self).next_heap_address == old(self).next_heap_address,
            final(self).current_location == old(self).current_location,
            final(self).smt_solver == old(self).smt_solver,
    {
        let n = num_cases;
        let mut j: u64 = 0;
        while j < n
            invariant
                j <= n,
                old(self).wf(),
                self.wf(),
                (self.current_environment@, self.buffered_diagnostics@) == cases_transmuted(
                    old(self).current_environment@,
                    old(self).buffered_diagnostics@,
                    *source,
                    *source_type,
                    *q,
                    n,
                    *cases,
                    skip,
                    j as nat,
                ),
                self.current_environment.entry_condition
                    == old(self).current_environment.entry_condition,
                self.heap_addresses == old(self).heap_addresses,
                self.next_heap_address == old(self).next_heap_address,
                self.current_location == old(self).current_location,
                self.smt_solver == old(self).smt_solver,
            decreases n - j,
        {
            if skip != Some(j) {
                if let Some(case_type) = cases.get(j) {
                    let case_path = Path::new_union_field(q.duplicate(), j, n);
                    self.copy_and_transmute(source, source_type, &case_path, case_type);
                }
            }
            j += 1;
        }
    }

    /// Binds `path` (canonicalized first) to `value`. A slice of known
    /// extent stands for its elements, each of which is bound to `value`.
    /// A union field shares its storage with the other cases of its union:
    /// where the union's type is known, the written case is bound to `value`
    /// and every other case takes its bits, read as the written case's type. Otherwise a strong update. Paths here have only
    /// constant indices, so no other binding may alias `path`.
    pub fn update_value_at(&mut self, types: &TypeVisitor, path: Path, value: Expression)
        requires
            old(self).wf(),
        ensures
            final(self).wf(),
            (final(self).current_environment@, final(self).buffered_diagnostics@) == updated(
                old(self).current_environment@,
                old(self).buffered_diagnostics@,
                *types,
                path,
                value,
            ),
            final(self).current_environment.entry_condition
                == old(self).current_environment.entry_condition,
            final(self).heap_addresses == old(self).heap_addresses,
            final(self).next_heap_address == old(self).next_heap_address,
            final(self).current_location == old(self).current_location,
            final(self).smt_solver == old(self).smt_solver,
    {
        let t = path.canonicalize(&self.current_environment);
        let ghost m = self.current_environment@;
        match &t {
            Path::Qualified { qualifier, selector: PathSelector::Slice(count) } => {
                if *count < MAX_ELEMENTS_TO_TRACK {
                    self.set_elements(&**qualifier, 0, *count, &value);
                    return;
                }
            },
            Path::Qualified { qualifier, selector: PathSelector::ConstantSlice { from, to, from_end } } => {
                if let Some((start, end)) = self.constant_slice_of(&**qualifier, *from, *to, *from_end) {
                    self.set_elements(&**qualifier, start, end - start, &value);
                    return;
                }
            },
            Path::Qualified { qualifier, selector: PathSelector::UnionField { case_index, num_cases } } => {
                if let Some(IrType::Union(ts)) = types.get_path_rustc_type(&**qualifier) {
                    if let Some(case_type) = (&*ts).get(*case_index) {
                        self.current_environment.strong_update_value_at(t.duplicate(), value.duplicate());
                        self.transmute_into_union_cases(&t, case_type, &**qualifier, *num_cases, &*ts, Some(*case_index));
                        self.current_environment.strong_update_value_at(t.duplicate(), value);
                        return;
                    }
                }
            },
            _ => {},
        }
        self.current_environment.strong_update_value_at(t, value);
    }

    /// The range a constant slice selects, where it can be expanded.
    fn constant_slice_of(&self, qualifier: &Path, from: u64, to: u64, from_end: bool) -> (r: Option<(u64, u64)>)
        requires
            self.wf(),
        ensures
            r == constant_slice(from, to, from_end, known_length(self.current_environment@, *qualifier)),
    {
        let len = match self.known_length_of(qualifier) {
            Some(l) => l,
            None => {
                return None;
            },
        };
        let end: u64 = if from_end {
            if (to as u128) > len || len - (to as u128) > u64::MAX as u128 {
                return None;
            }
            (len - (to as u128)) as u64
        } else {
            to
        };
        if from > end || end - from >= MAX_ELEMENTS_TO_TRACK {
            return None;
        }
        Some((from, end))
    }

    /// Binds elements `from..from + count` of the sequence at `qualifier` to `value`.
    fn set_elements(&mut self, qualifier: &Path, from: u64, count: u64, value: &Expression)
        requires
            old(self).wf(),
            from + count <= u64::MAX,
        ensures
            final(self).wf(),
            final(self).current_environment@ == elements_set(
                old(self).current_environment@,
                *qualifier,
                from,
                count as nat,
                *value,
            ),
            final(self).current_environment.entry_condition
                == old(self).current_environment.entry_condition,
            final(self).buffered_diagnostics == old(self).buffered_diagnostics,
            final(self).heap_addresses == old(self).heap_addresses,
            final(self).next_heap_address == old(self).next_heap_address,
            final(self).current_location == old(self).current_location,
            final(self).smt_solver == old(self).smt_solver,
    {
        let mut k: u64 = 0;
        while k < count
            invariant
                k <= count,
                from + count <= u64::MAX,
                old(self).wf(),
                self.wf(),
                self.current_environment@ == elements_set(
                    old(self).current_environment@,
                    *qualifier,
                    from,
                    k as nat,
                    *value,
                ),
                self.current_environment.entry_condition
                    == old(self).current_environment.entry_condition,
                self.buffered_diagnostics == old(self).buffered_diagnostics,
                self.heap_addresses == old(self).heap_addresses,
                self.next_heap_address == old(self).next_heap_address,
                self.current_location == old(self).current_location,
                self.smt_solver == old(self).smt_solver,
            decreases count - k,
        {
            let element = Path::new_qualified(qualifier.duplicate(), PathSelector::Index(from + k));
            self.current_environment.strong_update_value_at(element, value.duplicate());
            k += 1;
        }
    }

    /// Assigns the value of type `root_type` at `source`, and everything
    /// within it, to `target` (canonicalized first). A union field shares
    /// its storage with the other cases of the union, so where `target` is
    /// one and the union's type is known, every case takes the source's
    /// bits (see `transmuted`). Otherwise the bindings are copied (see
    /// `canonically_copied`). A move drops what the source owned.
    pub fn copy_or_move_elements(
        &mut self,
        types: &TypeVisitor,
        target: &Path,
        source: &Path,
        root_type: &IrType,
        move_elements: bool,
    )
        requires
            old(self).wf(),
        ensures
            final(self).wf(),
            ({
                let m = old(self).current_environment@;
                let t = canonical_path(*target, m);
                match union_target(*types, t) {
                    Some((q, n, cases)) => {
                        let (m1, w1) = cases_transmuted(m, old(self).buffered_diagnostics@, *source, *root_type, q, n, cases, None, n as nat);
                        &&& final(self).current_environment@ == if move_elements {
                            without_where(m1, *source, true, false)
                        } else {
                            m1
                        }
                        &&& final(self).buffered_diagnostics@ == w1
                    },
                    None => {
                        &&& canonically_copied(final(self).current_environment@, m, *source, t, move_elements)
                        &&& final(self).buffered_diagnostics == old(self).buffered_diagnostics
                    },
                }
            }),
            final(self).current_environment.entry_condition
                == old(self).current_environment.entry_condition,
            final(self).heap_addresses == old(self).heap_addresses,
            final(self).next_heap_address == old(self).next_heap_address,
            final(self).current_location == old(self).current_location,
            final(self).smt_solver == old(self).smt_solver,
    {
        let t = target.canonicalize(&self.current_environment);
        if let Path::Qualified { qualifier, selector: PathSelector::UnionField { num_cases, .. } } = &t {
            if let Some(IrType::Union(ts)) = types.get_path_rustc_type(&**qualifier) {
                self.transmute_into_union_cases(source, root_type, &**qualifier, *num_cases, &*ts, None);
                if move_elements {
                    self.current_environment.remove_within_where(source, true, false);
                }
                return;
            }
        }
        self.current_environment.copy_or_move_elements(&t, source, move_elements);
    }

    /// A promoted constant rooted at `promoted_root` evaluated, in its own
    /// body, to a reference to `referenced`, whose bindings are those of
    /// `exit_environment`. So that the storage outlives that body, it is
    /// copied to a heap block allocated at the current location (of `size`
    /// bytes, whose layout is bound), and `promoted_root` is bound to a
    /// reference to the block. Where the reference is a slice pointer, its
    /// pointer field is bound to the block and its length field takes the
    /// length recorded for `referenced`. Returns the block's path.
    pub fn promote_reference(
        &mut self,
        promoted_root: Path,
        exit_environment: &Environment,
        referenced: &Path,
        size: u128,
        alignment: u128,
        slice_pointer: bool,
    ) -> (r: Path)
        requires
            old(self).wf(),
            promoted_root.root() is PromotedConstant,
            old(self).heap_blocks().contains_key(old(self).current_location)
                || old(self).next_heap_address < u64::MAX,
        ensures
            final(self).wf(),
            ({
                let b = old(self).allocated_block(old(self).current_location, false);
                &&& r == (Path::HeapBlock { abstract_address: b.0, is_zeroed: b.1 })
                &&& final(self).current_environment@ == promoted_bindings(
                    old(self).current_environment@,
                    r,
                    exit_environment@,
                    *referenced,
                    size,
                    alignment,
                    promoted_root,
                    slice_pointer,
                )
                &&& final(self).heap_blocks() == old(self).heap_blocks().insert(old(self).current_location, b)
                &&& final(self).next_heap_address == if old(self).heap_blocks().contains_key(
                    old(self).current_location,
                ) {
                    old(self).next_heap_address
                } else {
                    (old(self).next_heap_address + 1) as u64
                }
            }),
            r is HeapBlock,
            !slice_pointer ==> final(self).current_environment@.contains_key(promoted_root)
                && final(self).current_environment@[promoted_root] == Expression::Reference(r),
            slice_pointer ==> {
                let pointer = Path::Qualified { qualifier: Box::new(promoted_root), selector: PathSelector::Field(0) };
                let length = Path::Qualified { qualifier: Box::new(promoted_root), selector: PathSelector::Field(1) };
                let exit_length = Path::Qualified { qualifier: Box::new(*referenced), selector: PathSelector::Field(1) };
                &&& final(self).current_environment@.contains_key(pointer)
                &&& final(self).current_environment@[pointer] == Expression::Reference(r)
                &&& exit_environment@.contains_key(exit_length) ==> final(self).current_environment@.contains_key(length)
                    && final(self).current_environment@[length] == exit_environment@[exit_length]
            },
            forall|q: Path|
                #![trigger exit_environment@[q]]
                exit_environment@.contains_key(q) && q.within(*referenced) ==> {
                    let k = q.replaced_root(*referenced, r);
                    &&& final(self).current_environment@.contains_key(k)
                    &&& final(self).current_environment@[k] == exit_environment@[q]
                },
            !exit_environment@.contains_key(
                Path::Qualified { qualifier: Box::new(*referenced), selector: PathSelector::Layout },
            ) ==> {
                let layout = Path::Qualified { qualifier: Box::new(r), selector: PathSelector::Layout };
                &&& final(self).current_environment@.contains_key(layout)
                &&& final(self).current_environment@[layout] == (Expression::HeapBlockLayout {
                    length: size,
                    alignment,
                    source: crate::expression::LayoutSource::Alloc,
                })
            },
            final(self).current_environment.entry_condition
                == old(self).current_environment.entry_condition,
            final(self).buffered_diagnostics == old(self).buffered_diagnostics,
            final(self).current_location == old(self).current_location,
    {
        let (_, block_path) = self.get_new_heap_block(size, alignment, false);
        let entries = exit_environment.collect_rerooted(referenced, &block_path);
        let ghost base = self.current_environment@;
        let ghost heap0 = self.heap_addresses;
        let ghost next0 = self.next_heap_address;
        let n = entries.len();
        let mut i: usize = 0;
        proof {
            assert(map_of(entries@.take(0)) =~= Map::<Path, Expression>::empty());
            assert(base.union_prefer_right(Map::<Path, Expression>::empty()) =~= base);
        }
        while i < n
            invariant
                n == entries@.len(),
                i <= n,
                keys_unique(entries@),
                self.wf(),
                old(self).wf(),
                self.current_environment@ == base.union_prefer_right(map_of(entries@.take(i as int))),
                self.current_environment.entry_condition
                    == old(self).current_environment.entry_condition,
                self.buffered_diagnostics == old(self).buffered_diagnostics,
                self.current_location == old(self).current_location,
                self.heap_addresses == heap0,
                self.next_heap_address == next0,
            decreases n - i,
        {
            let (k, v) = (entries[i].0.duplicate(), entries[i].1.duplicate());
            proof {
                let t = entries@.take(i as int);
                assert(entries@.take(i as int + 1) =~= t.push((k, v)));
                assert(!has_key(t, k)) by {
                    if has_key(t, k) {
                        let j = choose|j: int| 0 <= j < t.len() && t[j].0 == k;
                        assert(entries@[j].0 != entries@[i as int].0);
                    }
                }
                lemma_map_of_push(t, k, v);
                assert(base.union_prefer_right(map_of(t)).insert(k, v) =~= base.union_prefer_right(
                    map_of(t).insert(k, v),
                ));
            }
            self.current_environment.insert(k, v);
            i += 1;
        }
        proof {
            assert(entries@.take(n as int) =~= entries@);
        }
        let ghost copied_env = self.current_environment@;
        let ghost exit_length = Path::Qualified { qualifier: Box::new(*referenced), selector: PathSelector::Field(1) };
        if slice_pointer {
            let pointer = Path::new_field(promoted_root.duplicate(), 0);
            self.current_environment.insert(pointer, Expression::Reference(block_path.duplicate()));
            let length_source = Path::new_field(referenced.duplicate(), 1);
            if let Some(len) = exit_environment.value_at(&length_source) {
                self.current_environment.insert(Path::new_field(promoted_root.duplicate(), 1), len.duplicate());
            }
        } else {
            self.current_environment.insert(promoted_root.duplicate(), Expression::Reference(block_path.duplicate()));
        }
        proof {
            assert(self.current_environment@ =~= promoted_bindings(
                old(self).current_environment@,
                block_path,
                exit_environment@,
                *referenced,
                size,
                alignment,
                promoted_root,
                slice_pointer,
            ));
            let copies = rerooted(exit_environment@, *referenced, block_path);
            let pointer = Path::Qualified { qualifier: Box::new(promoted_root), selector: PathSelector::Field(0) };
            let length = Path::Qualified { qualifier: Box::new(promoted_root), selector: PathSelector::Field(1) };
            lemma_within_same_root(promoted_root, promoted_root);
            lemma_within_same_root(pointer, promoted_root);
            lemma_within_same_root(length, promoted_root);
            assert forall|q: Path|
                #![trigger exit_environment@[q]]
                exit_environment@.contains_key(q) && q.within(*referenced) implies {
                    let k = q.replaced_root(*referenced, block_path);
                    &&& self.current_environment@.contains_key(k)
                    &&& self.current_environment@[k] == exit_environment@[q]
                } by {
                let k = q.replaced_root(*referenced, block_path);
                assert(copies.contains_key(k));
                let q2 = choose|q2: Path| #[trigger] exit_environment@.contains_key(q2) && q2.within(*referenced) && k == q2.replaced_root(*referenced, block_path);
                lemma_replaced_root_injective(q, q2, *referenced, block_path);
                lemma_replaced_root_within(q, *referenced, block_path);
                lemma_within_same_root(k, block_path);
                assert(k != promoted_root);
                assert(k != pointer);
                assert(k != length);
            }
            let layout = Path::Qualified { qualifier: Box::new(block_path), selector: PathSelector::Layout };
            let rl = Path::Qualified { qualifier: Box::new(*referenced), selector: PathSelector::Layout };
            lemma_within_same_root(layout, block_path);
            assert(layout != promoted_root && layout != pointer && layout != length);
            if !exit_environment@.contains_key(rl) {
                assert(!copies.contains_key(layout)) by {
                    if copies.contains_key(layout) {
                        let q2 = choose|q2: Path| #[trigger] exit_environment@.contains_key(q2) && q2.within(*referenced) && layout == q2.replaced_root(*referenced, block_path);
                        assert(rl.within(*referenced));
                        assert(decreases_to!(rl => rl->Qualified_qualifier));
                        assert(rl != *referenced);
                        assert((*referenced).replaced_root(*referenced, block_path) == block_path);
                        assert(rl.replaced_root(*referenced, block_path) == layout);
                        lemma_replaced_root_injective(rl, q2, *referenced, block_path);
                    }
                }
            }
        }
        block_path
    }
}

/// Where an effect of a callee on `path` lands in the caller: `path` moved
/// from `source_root` to `target_root`, then canonicalized under `pre` (for a
/// qualified path other than a dereference or a layout, only its qualifier).
pub open spec fn effect_target(path: Path, source_root: Path, target_root: Path, pre: Map<Path, Expression>) -> Path {
    let t = path.replaced_root(source_root, target_root);
    match t {
        Path::Qualified { qualifier, selector } => if selector == PathSelector::Deref || selector
            == PathSelector::Layout {
            canonical_path(t, pre)
        } else {
            Path::Qualified { qualifier: Box::new(canonical_path(*qualifier, pre)), selector }
        },
        Path::Computed(_) => canonical_path(t, pre),
        _ => t,
    }
}

/// The value of the first effect on the layout of `path`, or `Top`.
pub open spec fn layout_argument_of(effects: Seq<(Path, Expression)>, path: Path) -> Expression {
    let layout_path = Path::Qualified { qualifier: Box::new(path), selector: PathSelector::Layout };
    if exists|i: int| 0 <= i < effects.len() && effects[i].0 == layout_path {
        effects[choose_first_effect(effects, layout_path)].1
    } else {
        Expression::Top
    }
}

/// The position of the first effect on `path`.
pub open spec fn choose_first_effect(effects: Seq<(Path, Expression)>, path: Path) -> int {
    choose|i: int|
        0 <= i < effects.len() && effects[i].0 == path && forall|j: int|
            0 <= j < i ==> effects[j].0 != path
}

/// The bindings and warnings after the first `n` effects of a callee's
/// summary are applied: those on paths within `source_root` land within
/// `target_root`; a layout effect releases or resizes a block; any other
/// value is bound with a strong update.
pub open spec fn transferred(
    m: Map<Path, Expression>,
    warnings: Seq<Warning>,
    entry: Option<bool>,
    types: TypeVisitor,
    effects: Seq<(Path, Expression)>,
    source_root: Path,
    target_root: Path,
    pre: Map<Path, Expression>,
    n: nat,
) -> (Map<Path, Expression>, Seq<Warning>)
    decreases n,
{
    if n == 0 {
        (m, warnings)
    } else {
        let (m0, w0) = transferred(m, warnings, entry, types, effects, source_root, target_root, pre, (n - 1) as nat);
        let (p, v) = effects[n - 1];
        if !p.within(source_root) {
            (m0, w0)
        } else {
            let tp = effect_target(p, source_root, target_root, pre);
            if tp is PhantomData {
                (m0, w0)
            } else if v is HeapBlockLayout {
                let (w, m1) = layout_effect(m0, entry, tp, v, layout_argument_of(effects, p));
                (m1, w0 + w)
            } else if tp matches Path::Qualified { selector: PathSelector::TagField, .. } {
                let q = tp->Qualified_qualifier;
                (tags_propagated(m0, v, *q, type_or_opaque(types, *q)), w0)
            } else if v == Expression::Variable(tp) || v == Expression::InitialParameterValue(tp) {
                (m0.remove(tp), w0)
            } else {
                updated(m0, w0, types, tp, v)
            }
        }
    }
}

/// The type of the location `p` names, where known, else an opaque type.
pub open spec fn type_or_opaque(types: TypeVisitor, p: Path) -> IrType {
    match path_type(p, types.local_types@) {
        Some(t) => specialized(t, types.generic_arguments@),
        None => IrType::Opaque(0),
    }
}

/// `m` after each tag recorded in the tag-field value `v` (innermost first)
/// is attached to the value of type `root_type` at `root`.
pub open spec fn tags_propagated(m: Map<Path, Expression>, v: Expression, root: Path, root_type: IrType) -> Map<
    Path,
    Expression,
>
    decreases v,
{
    match v {
        Expression::Tagged { tag, operand } => attached_at_path(
            tags_propagated(m, *operand, root, root_type),
            tag,
            root,
            root_type,
        ),
        _ => m,
    }
}

/// Whether `value` is the unknown that `path` names.
fn is_own_unknown(value: &Expression, path: &Path) -> (r: bool)
    ensures
        r == (*value == Expression::Variable(*path) || *value == Expression::InitialParameterValue(*path)),
{
    match value {
        Expression::Variable(p) => p.same_as(path),
        Expression::InitialParameterValue(p) => p.same_as(path),
        _ => false,
    }
}

/// The value of the first effect on the layout of `path`, or `Top`.
fn find_layout_argument(effects: &Vec<(Path, Expression)>, path: &Path) -> (r: Expression)
    ensures
        r == layout_argument_of(effects@, *path),
{
    let layout_path = Path::new_layout(path.duplicate());
    let n = effects.len();
    let mut i: usize = 0;
    while i < n
        invariant
            n == effects@.len(),
            i <= n,
            layout_path == (Path::Qualified { qualifier: Box::new(*path), selector: PathSelector::Layout }),
            forall|j: int| 0 <= j < i ==> effects@[j].0 != layout_path,
        decreases n - i,
    {
        if effects[i].0.same_as(&layout_path) {
            proof {
                let k = choose_first_effect(effects@, layout_path);
                assert(0 <= i < effects@.len() && effects@[i as int].0 == layout_path && forall|j: int|
                    0 <= j < i ==> effects@[j].0 != layout_path);
                assert(k == i as int) by {
                    if k < i {
                        assert(effects@[k].0 != layout_path);
                    } else if k > i {
                        assert(effects@[i as int].0 != layout_path);
                    }
                }
            }
            return effects[i].1.duplicate();
        }
        i += 1;
    }
    Expression::Top
}

impl<S: SmtSolver> BodyVisitor<S> {
    fn effect_target_path(&self, path: &Path, source_root: &Path, target_root: &Path, pre: &Environment) -> (r: Path)
        ensures
            r == effect_target(*path, *source_root, *target_root, pre@),
    {
        let t = path.replace_root(source_root, target_root);
        match &t {
            Path::Qualified { qualifier, selector } => {
                if *selector == PathSelector::Deref || *selector == PathSelector::Layout {
                    t.canonicalize(pre)
                } else {
                    Path::new_qualified((&**qualifier).canonicalize(pre), *selector)
                }
            },
            Path::Computed(_) => t.canonicalize(pre),
            _ => t,
        }
    }

    /// Attaches each tag recorded in the tag-field value `value` (innermost
    /// first) to the value of type `root_type` at `root`.
    pub fn transfer_and_propagate_tags(&mut self, value: &Expression, root: &Path, root_type: &IrType)
        requires
            old(self).wf(),
        ensures
            final(self).wf(),
            final(self).current_environment@ == tags_propagated(
                old(self).current_environment@,
                *value,
                *root,
                *root_type,
            ),
            final(self).current_environment.entry_condition
                == old(self).current_environment.entry_condition,
            final(self).buffered_diagnostics == old(self).buffered_diagnostics,
            final(self).heap_addresses == old(self).heap_addresses,
            final(self).next_heap_address == old(self).next_heap_address,
            final(self).current_location == old(self).current_location,
            final(self).smt_solver == old(self).smt_solver,
        decreases value,
    {
        if let Expression::Tagged { tag, operand } = value {
            self.transfer_and_propagate_tags(&**operand, root, root_type);
            self.attach_tag_to_value_at_path(*tag, root, root_type);
        }
    }

    /// Applies the side effects `effects` of a callee on paths within
    /// `source_root` to the current state, moved to `target_root`; their
    /// paths are canonicalized under `pre_environment`, the state before the
    /// call. Releases and resizes of heap blocks are checked and applied;
    /// an effect on a tag field attaches the tags it records to the value
    /// that owns the field; an effect that makes a path its own unknown
    /// drops the binding; any other value is bound with `update_value_at`.
    pub fn transfer_and_refine(
        &mut self,
        types: &TypeVisitor,
        effects: &Vec<(Path, Expression)>,
        target_root: &Path,
        source_root: &Path,
        pre_environment: &Environment,
    )
        requires
            old(self).wf(),
        ensures
            final(self).wf(),
            (final(self).current_environment@, final(self).buffered_diagnostics@) == transferred(
                old(self).current_environment@,
                old(self).buffered_diagnostics@,
                old(self).current_environment.entry_condition.known_bool(),
                *types,
                effects@,
                *source_root,
                *target_root,
                pre_environment@,
                effects@.len(),
            ),
            final(self).current_environment.entry_condition
                == old(self).current_environment.entry_condition,
            final(self).heap_addresses == old(self).heap_addresses,
            final(self).next_heap_address == old(self).next_heap_address,
            final(self).current_location == old(self).current_location,
            final(self).smt_solver == old(self).smt_solver,
    {
        let n = effects.len();
        let mut i: usize = 0;
        while i < n
            invariant
                n == effects@.len(),
                i <= n,
                old(self).wf(),
                self.wf(),
                (self.current_environment@, self.buffered_diagnostics@) == transferred(
                    old(self).current_environment@,
                    old(self).buffered_diagnostics@,
                    old(self).current_environment.entry_condition.known_bool(),
                    *types,
                    effects@,
                    *source_root,
                    *target_root,
                    pre_environment@,
                    i as nat,
                ),
                self.current_environment.entry_condition
                    == old(self).current_environment.entry_condition,
                self.heap_addresses == old(self).heap_addresses,
                self.next_heap_address == old(self).next_heap_address,
                self.current_location == old(self).current_location,
                self.smt_solver == old(self).smt_solver,
            decreases n - i,
        {
            let path = &effects[i].0;
            if path.is_within(source_root) {
                let tpath = self.effect_target_path(path, source_root, target_root, pre_environment);
                if !matches!(tpath, Path::PhantomData) {
                    let value = effects[i].1.duplicate();
                    if let Expression::HeapBlockLayout { .. } = value {
                        let argument = find_layout_argument(effects, path);
                        self.transfer_layout_effect(tpath, value, &argument);
                    } else if let Path::Qualified { qualifier, selector: PathSelector::TagField } = &tpath {
                        let root_type = match types.get_path_rustc_type(&**qualifier) {
                            Some(t) => t,
                            None => IrType::Opaque(0),
                        };
                        self.transfer_and_propagate_tags(&value, &**qualifier, &root_type);
                    } else if is_own_unknown(&value, &tpath) {
                        trie_remove(&mut self.current_environment.value_map, &tpath);
                    } else {
                        self.update_value_at(types, tpath, value);
                    }
                }
            }
            i += 1;
        }
    }
}

/// The most elements a slice pattern is expanded into.
pub const MAX_ELEMENTS_TO_TRACK: u64 = 20;

/// The length of the sequence at `qualifier`, where it is a known constant.
pub open spec fn known_length(m: Map<Path, Expression>, qualifier: Path) -> Option<u128> {
    let len_path = Path::Qualified { qualifier: Box::new(qualifier), selector: PathSelector::Field(1) };
    if m.contains_key(len_path) && m[len_path] matches Expression::CompileTimeConstant(
        ConstantDomain::U128(_),
    ) {
        Some(m[len_path]->CompileTimeConstant_0->U128_0)
    } else {
        None
    }
}

/// The element a constant index selects: `offset`, or `len - offset` when
/// counted from the end (which needs a known length no smaller than
/// `offset`, and a result that fits an index).
pub open spec fn constant_index(offset: u64, from_end: bool, len: Option<u128>) -> Option<u128> {
    if !from_end {
        Some(offset as u128)
    } else {
        match len {
            Some(l) => if offset <= l && l - offset <= u64::MAX {
                Some((l - offset) as u128)
            } else {
                None
            },
            None => None,
        }
    }
}

/// The range `from..to` of elements a constant slice selects, where the
/// length is known, the range is well formed and short enough to expand.
pub open spec fn constant_slice(from: u64, to: u64, from_end: bool, len: Option<u128>) -> Option<(u64, u64)> {
    match len {
        Some(l) => {
            let end: int = if from_end {
                l - to
            } else {
                to as int
            };
            if 0 <= end <= u64::MAX && from <= end && end - from < MAX_ELEMENTS_TO_TRACK {
                Some((from, end as u64))
            } else {
                None
            }
        },
        None => None,
    }
}

/// The path of element `i` of the sequence at `qualifier`.
pub open spec fn element_path(qualifier: Path, i: u64) -> Path {
    Path::Qualified { qualifier: Box::new(qualifier), selector: PathSelector::Index(i) }
}

/// `m` after copying elements `from..from + count` of `source` to elements
/// `0..count` of `target`, one by one.
pub open spec fn slice_copied(m: Map<Path, Expression>, target: Path, source: Path, from: u64, count: nat) -> Map<
    Path,
    Expression,
>
    decreases count,
{
    if count == 0 {
        m
    } else {
        let k = (count - 1) as u64;
        copied(
            slice_copied(m, target, source, from, (count - 1) as nat),
            element_path(source, (from + k) as u64),
            element_path(target, k),
            false,
        )
    }
}

impl<S: SmtSolver> BodyVisitor<S> {
    fn known_length_of(&self, qualifier: &Path) -> (r: Option<u128>)
        requires
            self.wf(),
        ensures
            r == known_length(self.current_environment@, *qualifier),
    {
        let len_path = Path::new_field(qualifier.duplicate(), 1);
        match self.current_environment.value_at(&len_path) {
            Some(Expression::CompileTimeConstant(ConstantDomain::U128(l))) => Some(*l),
            _ => None,
        }
    }

    /// Copies elements `from..to` of the sequence at `source` to elements
    /// `0..to - from` of the sequence at `target`.
    pub fn expand_slice(&mut self, target: &Path, source: &Path, from: u64, to: u64)
        requires
            old(self).wf(),
            from <= to,
        ensures
            final(self).wf(),
            final(self).current_environment@ == slice_copied(
                old(self).current_environment@,
                *target,
                *source,
                from,
                (to - from) as nat,
            ),
            final(self).current_environment.entry_condition
                == old(self).current_environment.entry_condition,
            final(self).buffered_diagnostics == old(self).buffered_diagnostics,
            final(self).heap_addresses == old(self).heap_addresses,
            final(self).next_heap_address == old(self).next_heap_address,
            final(self).current_location == old(self).current_location,
            final(self).smt_solver == old(self).smt_solver,
    {
        let mut i: u64 = from;
        while i < to
            invariant
                from <= i <= to,
                old(self).wf(),
                self.wf(),
                self.current_environment@ == slice_copied(
                    old(self).current_environment@,
                    *target,
                    *source,
                    from,
                    (i - from) as nat,
                ),
                self.current_environment.entry_condition
                    == old(self).current_environment.entry_condition,
                self.buffered_diagnostics == old(self).buffered_diagnostics,
                self.heap_addresses == old(self).heap_addresses,
                self.next_heap_address == old(self).next_heap_address,
                self.current_location == old(self).current_location,
                self.smt_solver == old(self).smt_solver,
            decreases to - i,
        {
            let indexed_source = Path::new_qualified(source.duplicate(), PathSelector::Index(i));
            let indexed_target = Path::new_qualified(target.duplicate(), PathSelector::Index(i - from));
            self.current_environment.copy_elements_verbatim(&indexed_target, &indexed_source, false);
            i += 1;
        }
    }

    /// Where `source` selects elements by a constant index or a short
    /// constant slice whose position is known, copies those elements to
    /// `target` and returns true; otherwise leaves the state alone and
    /// returns false.
    pub fn try_expand_source_pattern(&mut self, target: &Path, source: &Path) -> (r: bool)
        requires
            old(self).wf(),
        ensures
            final(self).wf(),
            ({
                let m = old(self).current_environment@;
                match *source {
                    Path::Qualified { qualifier, selector: PathSelector::ConstantIndex { offset, from_end } } =>
                        match constant_index(offset, from_end, known_length(m, *qualifier)) {
                        Some(index) => r && index <= u64::MAX && final(self).current_environment@ == copied(
                            m,
                            element_path(*qualifier, index as u64),
                            *target,
                            false,
                        ),
                        None => !r && final(self).current_environment@ == m,
                    },
                    Path::Qualified { qualifier, selector: PathSelector::ConstantSlice { from, to, from_end } } =>
                        match constant_slice(from, to, from_end, known_length(m, *qualifier)) {
                        Some((start, end)) => r && final(self).current_environment@ == slice_copied(
                            m,
                            *target,
                            *qualifier,
                            start,
                            (end - start) as nat,
                        ),
                        None => !r && final(self).current_environment@ == m,
                    },
                    _ => !r && final(self).current_environment@ == m,
                }
            }),
            final(self).current_environment.entry_condition
                == old(self).current_environment.entry_condition,
            final(self).buffered_diagnostics == old(self).buffered_diagnostics,
            final(self).heap_addresses == old(self).heap_addresses,
            final(self).next_heap_address == old(self).next_heap_address,
            final(self).current_location == old(self).current_location,
            final(self).smt_solver == old(self).smt_solver,
    {
        match source {
            Path::Qualified { qualifier, selector: PathSelector::ConstantIndex { offset, from_end } } => {
                let index: u64 = if !*from_end {
                    *offset
                } else {
                    match self.known_length_of(&**qualifier) {
                        Some(l) => if (*offset as u128) <= l && l - (*offset as u128) <= u64::MAX as u128 {
                            (l - (*offset as u128)) as u64
                        } else {
                            return false;
                        },
                        None => {
                            return false;
                        },
                    }
                };
                let indexed = Path::new_qualified((&**qualifier).duplicate(), PathSelector::Index(index));
                self.current_environment.copy_elements_verbatim(target, &indexed, false);
                true
            },
            Path::Qualified { qualifier, selector: PathSelector::ConstantSlice { from, to, from_end } } => {
                let len = match self.known_length_of(&**qualifier) {
                    Some(l) => l,
                    None => {
                        return false;
                    },
                };
                let end: u64 = if *from_end {
                    if (*to as u128) > len || len - (*to as u128) > u64::MAX as u128 {
                        return false;
                    }
                    (len - (*to as u128)) as u64
                } else {
                    *to
                };
                if *from > end || end - *from >= MAX_ELEMENTS_TO_TRACK {
                    return false;
                }
                self.expand_slice(target, &**qualifier, *from, end);
                true
            },
            _ => false,
        }
    }
}

/// The body of a promoted constant, analyzed by the caller: its exit
/// state, and where and how large the storage its result refers to is.
pub struct PromotedBody {
    pub exit_environment: Environment,
    pub location: Location,
    pub size: u128,
    pub alignment: u128,
    pub slice_pointer: bool,
}

/// The path the result of a body refers to, where its exit state binds the
/// result to a reference.
pub open spec fn referenced_by_result(exit: Map<Path, Expression>) -> Option<Path> {
    if exit.contains_key(Path::Result) && exit[Path::Result] is Reference {
        Some(exit[Path::Result]->Reference_0)
    } else {
        None
    }
}

/// The bindings, blocks by allocation site and next fresh address after the
/// first `count` promoted constants are materialized: a constant whose result
/// is a reference has the storage it refers to promoted to a heap block (see
/// `promoted_bindings`); any other has its result's bindings copied under
/// `PromotedConstant(i)`.
pub open spec fn promotions(
    m: Map<Path, Expression>,
    heap: Map<Location, (u64, bool)>,
    next: u64,
    bodies: Seq<PromotedBody>,
    count: nat,
) -> (Map<Path, Expression>, Map<Location, (u64, bool)>, u64)
    decreases count,
{
    if count == 0 {
        (m, heap, next)
    } else {
        let (m0, h0, n0) = promotions(m, heap, next, bodies, (count - 1) as nat);
        let body = bodies[count - 1];
        let root = Path::PromotedConstant((count - 1) as u64);
        let exit = body.exit_environment@;
        match referenced_by_result(exit) {
            Some(p) => {
                let b = if h0.contains_key(body.location) {
                    h0[body.location]
                } else {
                    (n0, false)
                };
                (
                    promoted_bindings(
                        m0,
                        Path::HeapBlock { abstract_address: b.0, is_zeroed: b.1 },
                        exit,
                        p,
                        body.size,
                        body.alignment,
                        root,
                        body.slice_pointer,
                    ),
                    h0.insert(body.location, b),
                    if h0.contains_key(body.location) {
                        n0
                    } else {
                        (n0 + 1) as u64
                    },
                )
            },
            None => (without_within(m0, root).union_prefer_right(rerooted(exit, Path::Result, root)), h0, n0),
        }
    }
}

impl Environment {
    /// Binds each entry's path to its value.
    pub fn insert_all(&mut self, entries: &Vec<(Path, Expression)>)
        requires
            keys_unique(entries@),
        ensures
            final(self)@ == old(self)@.union_prefer_right(map_of(entries@)),
            final(self).entry_condition == old(self).entry_condition,
    {
        let ghost base = self@;
        let n = entries.len();
        let mut i: usize = 0;
        proof {
            assert(map_of(entries@.take(0)) =~= Map::<Path, Expression>::empty());
            assert(base.union_prefer_right(Map::<Path, Expression>::empty()) =~= base);
        }
        while i < n
            invariant
                n == entries@.len(),
                i <= n,
                keys_unique(entries@),
                self@ == base.union_prefer_right(map_of(entries@.take(i as int))),
                self.entry_condition == old(self).entry_condition,
            decreases n - i,
        {
            let (k, v) = (entries[i].0.duplicate(), entries[i].1.duplicate());
            proof {
                let t = entries@.take(i as int);
                assert(entries@.take(i as int + 1) =~= t.push((k, v)));
                assert(!has_key(t, k)) by {
                    if has_key(t, k) {
                        let j = choose|j: int| 0 <= j < t.len() && t[j].0 == k;
                        assert(entries@[j].0 != entries@[i as int].0);
                    }
                }
                lemma_map_of_push(t, k, v);
                assert(base.union_prefer_right(map_of(t)).insert(k, v) =~= base.union_prefer_right(
                    map_of(t).insert(k, v),
                ));
            }
            self.insert(k, v);
            i += 1;
        }
        proof {
            assert(entries@.take(n as int) =~= entries@);
        }
    }
}

impl<S: SmtSolver> BodyVisitor<S> {
    /// Materializes the promoted constants of the body, `bodies[i]` under
    /// `PromotedConstant(i)`, each allocated at its own location.
    pub fn promote_constants(&mut self, bodies: &Vec<PromotedBody>)
        requires
            old(self).wf(),
            old(self).next_heap_address + bodies@.len() < u64::MAX,
        ensures
            final(self).wf(),
            (final(self).current_environment@, final(self).heap_blocks(), final(self).next_heap_address)
                == promotions(
                old(self).current_environment@,
                old(self).heap_blocks(),
                old(self).next_heap_address,
                bodies@,
                bodies@.len(),
            ),
            final(self).current_environment.entry_condition
                == old(self).current_environment.entry_condition,
            final(self).buffered_diagnostics == old(self).buffered_diagnostics,
            final(self).current_location == old(self).current_location,
    {
        let saved_location = self.current_location;
        let n = bodies.len();
        let mut i: usize = 0;
        while i < n
            invariant
                n == bodies@.len(),
                i <= n,
                old(self).next_heap_address + bodies@.len() < u64::MAX,
                self.next_heap_address <= old(self).next_heap_address + i,
                self.wf(),
                (self.current_environment@, self.heap_blocks(), self.next_heap_address) == promotions(
                    old(self).current_environment@,
                    old(self).heap_blocks(),
                    old(self).next_heap_address,
                    bodies@,
                    i as nat,
                ),
                self.current_environment.entry_condition
                    == old(self).current_environment.entry_condition,
                self.buffered_diagnostics == old(self).buffered_diagnostics,
            decreases n - i,
        {
            let body = &bodies[i];
            let root = Path::PromotedConstant(i as u64);
            match body.exit_environment.value_at(&Path::Result) {
                Some(Expression::Reference(p)) => {
                    self.current_location = body.location;
                    self.promote_reference(
                        root,
                        &body.exit_environment,
                        p,
                        body.size,
                        body.alignment,
                        body.slice_pointer,
                    );
                },
                _ => {
                    let entries = body.exit_environment.collect_rerooted(&Path::Result, &root);
                    self.current_environment.remove_within(&root);
                    self.current_environment.insert_all(&entries);
                },
            }
            i += 1;
        }
        self.current_location = saved_location;
    }
}

/// A path within `root` has the root of `root`.
pub proof fn lemma_within_same_root(p: Path, root: Path)
    requires
        p.within(root),
    ensures
        p.root() == root.root(),
    decreases p,
{
    if p != root {
        match p {
            Path::Qualified { qualifier, .. } => {
                lemma_within_same_root(*qualifier, root);
            },
            _ => {},
        }
    }
}

pub proof fn lemma_rerooted_entries(s: Seq<(Path, Expression)>, source: Path, target: Path)
    requires
        keys_unique(s),
    ensures
        keys_unique(rerooted_entries(s, source, target)),
        map_of(rerooted_entries(s, source, target)) == rerooted(map_of(s), source, target),
        forall|j: int|
            0 <= j < rerooted_entries(s, source, target).len() ==> (#[trigger] rerooted_entries(
                s,
                source,
                target,
            )[j]).0.within(target),
    decreases s.len(),
{
    let r = rerooted_entries(s, source, target);
    if s.len() == 0 {
        assert(map_of(r) =~= rerooted(map_of(s), source, target));
    } else {
        let t = s.drop_last();
        let e = s.last();
        assert(keys_unique(t));
        lemma_rerooted_entries(t, source, target);
        let prev = rerooted_entries(t, source, target);
        let m = map_of(s);
        let mt = map_of(t);
        // Bindings of `s`: those of `t`, and the last entry, whose key is new.
        assert(!has_key(t, e.0)) by {
            if has_key(t, e.0) {
                let i = choose|i: int| 0 <= i < t.len() && t[i].0 == e.0;
                assert(s[i].0 != s[s.len() - 1].0);
            }
        }
        assert(s =~= t.push(e));
        lemma_map_of_push(t, e.0, e.1);
        if e.0.within(source) {
            let k = e.0.replaced_root(source, target);
            lemma_replaced_root_within(e.0, source, target);
            assert(!has_key(prev, k)) by {
                if has_key(prev, k) {
                    assert(map_of(prev).contains_key(k));
                    let q = choose|q: Path| #[trigger] mt.contains_key(q) && q.within(source) && k == q.replaced_root(source, target);
                    lemma_replaced_root_injective(q, e.0, source, target);
                    let i = choose|i: int| 0 <= i < t.len() && t[i].0 == q;
                    assert(s[i].0 != s[s.len() - 1].0);
                }
            }
            lemma_map_of_push(prev, k, e.1);
            assert forall|j: int| 0 <= j < r.len() implies (#[trigger] r[j]).0.within(target) by {
                if j < prev.len() {
                    assert(r[j] == prev[j]);
                }
            }
            let goal = rerooted(m, source, target);
            assert forall|x: Path| #[trigger] map_of(r).contains_key(x) <==> goal.contains_key(x) by {
                if map_of(r).contains_key(x) {
                    if x == k {
                        assert(m.contains_key(e.0));
                    } else {
                        assert(map_of(prev).contains_key(x));
                        let q = choose|q: Path| #[trigger] mt.contains_key(q) && q.within(source) && x == q.replaced_root(source, target);
                        assert(m.contains_key(q));
                    }
                }
                if goal.contains_key(x) {
                    let q = choose|q: Path| #[trigger] m.contains_key(q) && q.within(source) && x == q.replaced_root(source, target);
                    if q != e.0 {
                        assert(mt.contains_key(q));
                    }
                }
            }
            assert forall|x: Path| #[trigger] map_of(r).contains_key(x) implies map_of(r)[x] == goal[x] by {
                let q = choose|q: Path| #[trigger] m.contains_key(q) && q.within(source) && x == q.replaced_root(source, target);
                if x == k {
                    lemma_replaced_root_injective(q, e.0, source, target);
                } else {
                    let q2 = choose|q: Path| #[trigger] mt.contains_key(q) && q.within(source) && x == q.replaced_root(source, target);
                    lemma_replaced_root_injective(q, q2, source, target);
                    assert(q != e.0);
                }
            }
            assert(map_of(r) =~= goal);
        } else {
            let goal = rerooted(m, source, target);
            assert forall|x: Path| #[trigger] map_of(r).contains_key(x) <==> goal.contains_key(x) by {
                if map_of(r).contains_key(x) {
                    let q = choose|q: Path| #[trigger] mt.contains_key(q) && q.within(source) && x == q.replaced_root(source, target);
                    assert(m.contains_key(q));
                }
                if goal.contains_key(x) {
                    let q = choose|q: Path| #[trigger] m.contains_key(q) && q.within(source) && x == q.replaced_root(source, target);
                    assert(q != e.0);
                    assert(mt.contains_key(q));
                }
            }
            assert forall|x: Path| #[trigger] map_of(r).contains_key(x) implies map_of(r)[x] == goal[x] by {
                let q = choose|q: Path| #[trigger] m.contains_key(q) && q.within(source) && x == q.replaced_root(source, target);
                let q2 = choose|q: Path| #[trigger] mt.contains_key(q) && q.within(source) && x == q.replaced_root(source, target);
                lemma_replaced_root_injective(q, q2, source, target);
            }
            assert(map_of(r) =~= goal);
        }
    }
}

} // verus!
