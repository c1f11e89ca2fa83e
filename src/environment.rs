//! The environment: a map from paths to abstract values, with the condition
//! under which the current block is entered.

use vstd::prelude::*;
use crate::expression::{ConstantDomain, Expression};
use crate::path::Path;
use crate::persistent_map::{
    block_trie_bindings, block_trie_get, block_trie_insert, block_trie_new, trie_bindings, trie_entries,
    trie_get, trie_insert, trie_new, trie_remove, BlockTrie, PathTrie,
};

verus! {

/// An entry list whose keys are pairwise distinct.
pub open spec fn keys_unique<K, V>(s: Seq<(K, V)>) -> bool {
    forall|i: int, j: int| 0 <= i < j < s.len() ==> s[i].0 != s[j].0
}

/// Whether `k` is the key of some entry of `s`.
pub open spec fn has_key<K, V>(s: Seq<(K, V)>, k: K) -> bool {
    exists|i: int| 0 <= i < s.len() && s[i].0 == k
}

/// The map that an entry list stands for.
pub open spec fn map_of<K, V>(s: Seq<(K, V)>) -> Map<K, V> {
    Map::new(
        |k: K| has_key(s, k),
        |k: K| s[choose|i: int| 0 <= i < s.len() && s[i].0 == k].1,
    )
}

/// `m` without the bindings of `root` and of every path rooted by it.
pub open spec fn without_within(m: Map<Path, Expression>, root: Path) -> Map<Path, Expression> {
    Map::new(|k: Path| m.contains_key(k) && !k.within(root), |k: Path| m[k])
}

pub proof fn lemma_map_of_index<K, V>(s: Seq<(K, V)>, i: int)
    requires
        keys_unique(s),
        0 <= i < s.len(),
    ensures
        map_of(s).contains_key(s[i].0),
        map_of(s)[s[i].0] == s[i].1,
{
    assert(has_key(s, s[i].0));
    let j = choose|j: int| 0 <= j < s.len() && s[j].0 == s[i].0;
    if j < i {
        assert(s[j].0 != s[i].0);
    } else if i < j {
        assert(s[i].0 != s[j].0);
    }
}

pub proof fn lemma_map_of_push<K, V>(s: Seq<(K, V)>, k: K, v: V)
    requires
        keys_unique(s),
        !has_key(s, k),
    ensures
        keys_unique(s.push((k, v))),
        map_of(s.push((k, v))) == map_of(s).insert(k, v),
{
    let t = s.push((k, v));
    assert forall|i: int, j: int| 0 <= i < j < t.len() implies t[i].0 != t[j].0 by {
        if j == s.len() {
            assert(s[i].0 == t[i].0);
        } else {
            assert(s[i].0 != s[j].0);
        }
    }
    assert forall|q: K| #[trigger] has_key(t, q) <==> (has_key(s, q) || q == k) by {
        if has_key(s, q) {
            let i = choose|i: int| 0 <= i < s.len() && s[i].0 == q;
            assert(t[i].0 == q);
        }
        if has_key(t, q) && q != k {
            let i = choose|i: int| 0 <= i < t.len() && t[i].0 == q;
            assert(s[i].0 == q);
        }
        if q == k {
            assert(t[s.len() as int].0 == q);
        }
    }
    assert forall|q: K| #[trigger] map_of(t).contains_key(q) implies map_of(t)[q] == map_of(
        s,
    ).insert(k, v)[q] by {
        let i = choose|i: int| 0 <= i < t.len() && t[i].0 == q;
        lemma_map_of_index(t, i);
        if i < s.len() {
            lemma_map_of_index(s, i);
        }
    }
    assert(map_of(t) =~= map_of(s).insert(k, v));
}

/// Whether the binding of `k` to `v` goes when the bindings within `root`
/// are removed, keeping, with `keep_derefs`, paths through a dereference
/// and, with `layouts_only`, every value but a layout.
pub open spec fn removable(k: Path, v: Expression, root: Path, keep_derefs: bool, layouts_only: bool) -> bool {
    &&& k.within(root)
    &&& !(keep_derefs && k.spec_has_deref())
    &&& (!layouts_only || v is HeapBlockLayout)
}

/// `m` without the removable bindings within `root`.
pub open spec fn without_where(
    m: Map<Path, Expression>,
    root: Path,
    keep_derefs: bool,
    layouts_only: bool,
) -> Map<Path, Expression> {
    Map::new(|k: Path| m.contains_key(k) && !removable(k, m[k], root, keep_derefs, layouts_only), |k: Path| m[k])
}

/// `e` with a reference to, or an unknown rooted in, the zeroed block at
/// `address` moved to the same block with the zeroed flag cleared.
pub open spec fn zeroed_flag_cleared(e: Expression, address: u64) -> Expression {
    let old_root = Path::HeapBlock { abstract_address: address, is_zeroed: true };
    let new_root = Path::HeapBlock { abstract_address: address, is_zeroed: false };
    match e {
        Expression::Reference(p) => if p.within(old_root) {
            Expression::Reference(p.replaced_root(old_root, new_root))
        } else {
            e
        },
        Expression::Variable(p) => if p.within(old_root) {
            Expression::Variable(p.replaced_root(old_root, new_root))
        } else {
            e
        },
        _ => e,
    }
}

/// The abstract state at a program point.
pub struct Environment {
    /// The bindings, in a persistent map shared with earlier states.
    pub value_map: PathTrie,
    /// A condition that holds on every execution that reaches this point.
    pub entry_condition: Expression,
    /// For each successor block, the condition under which the block
    /// exits to it; shared with earlier states like the bindings.
    pub exit_conditions: BlockTrie,
}

impl View for Environment {
    type V = Map<Path, Expression>;

    open spec fn view(&self) -> Map<Path, Expression> {
        trie_bindings(self.value_map)
    }
}

impl Environment {
    /// An environment with no bindings, entered unconditionally.
    pub fn new() -> (r: Environment)
        ensures
            r@ == Map::<Path, Expression>::empty(),
            r.entry_condition == Expression::CompileTimeConstant(ConstantDomain::Bool(true)),
            r.exits() == Map::<u64, Expression>::empty(),
    {
        let r = Environment {
            value_map: trie_new(),
            entry_condition: Expression::CompileTimeConstant(ConstantDomain::Bool(true)),
            exit_conditions: block_trie_new(),
        };
        assert(r@ =~= Map::<Path, Expression>::empty());
        assert(r.exits() =~= Map::<u64, Expression>::empty());
        r
    }

    /// The exit condition of each successor block.
    pub open spec fn exits(&self) -> Map<u64, Expression> {
        block_trie_bindings(self.exit_conditions)
    }

    /// The condition under which this state's block exits to `block`, if recorded.
    pub fn exit_condition(&self, block: u64) -> (r: Option<&Expression>)
        ensures
            match r {
                Some(v) => self.exits().contains_key(block) && self.exits()[block] == *v,
                None => !self.exits().contains_key(block),
            },
    {
        block_trie_get(&self.exit_conditions, block)
    }

    /// Records that this state's block exits to `block` under `condition`.
    pub fn set_exit_condition(&mut self, block: u64, condition: Expression)
        ensures
            final(self).exits() == old(self).exits().insert(block, condition),
            final(self)@ == old(self)@,
            final(self).entry_condition == old(self).entry_condition,
    {
        block_trie_insert(&mut self.exit_conditions, block, condition);
    }

    /// Forgets every recorded exit condition.
    pub fn clear_exit_conditions(&mut self)
        ensures
            final(self).exits() == Map::<u64, Expression>::empty(),
            final(self)@ == old(self)@,
            final(self).entry_condition == old(self).entry_condition,
    {
        self.exit_conditions = block_trie_new();
        assert(self.exits() =~= Map::<u64, Expression>::empty());
    }

    /// The bindings, one entry per path, in some order.
    pub fn entries(&self) -> (r: Vec<(Path, Expression)>)
        ensures
            keys_unique(r@),
            map_of(r@) == self@,
    {
        trie_entries(&self.value_map)
    }

    /// The value bound to `path`, if any.
    pub fn value_at(&self, path: &Path) -> (r: Option<&Expression>)
        ensures
            match r {
                Some(v) => self@.contains_key(*path) && self@[*path] == *v,
                None => !self@.contains_key(*path),
            },
    {
        trie_get(&self.value_map, path)
    }

    /// Binds `path` to `value`, keeping every other binding.
    pub fn insert(&mut self, path: Path, value: Expression)
        ensures
            final(self)@ == old(self)@.insert(path, value),
            final(self).entry_condition == old(self).entry_condition,
    {
        trie_insert(&mut self.value_map, path, value);
    }

    /// Removes the bindings of `root` and of every path rooted by it.
    pub fn remove_within(&mut self, root: &Path)
        ensures
            final(self)@ == without_within(old(self)@, *root),
            final(self).entry_condition == old(self).entry_condition,
    {
        self.remove_within_where(root, false, false);
        assert(self@ =~= without_within(old(self)@, *root));
    }

    /// Removes the bindings within `root`, but, with `keep_derefs`, those
    /// whose path goes through a dereference, and, with `layouts_only`,
    /// those whose value is not a layout.
    pub fn remove_within_where(&mut self, root: &Path, keep_derefs: bool, layouts_only: bool)
        ensures
            final(self)@ == without_where(old(self)@, *root, keep_derefs, layouts_only),
            final(self).entry_condition == old(self).entry_condition,
    {
        let entries = self.entries();
        let ghost m = self@;
        let n = entries.len();
        let mut i: usize = 0;
        proof {
            assert(self@ =~= Map::new(
                |k: Path| m.contains_key(k) && !(removable(k, m[k], *root, keep_derefs, layouts_only) && has_key(entries@.take(0), k)),
                |k: Path| m[k],
            ));
        }
        while i < n
            invariant
                n == entries@.len(),
                i <= n,
                keys_unique(entries@),
                map_of(entries@) == m,
                self@ == Map::new(
                    |k: Path| m.contains_key(k) && !(removable(k, m[k], *root, keep_derefs, layouts_only) && has_key(entries@.take(i as int), k)),
                    |k: Path| m[k],
                ),
                self.entry_condition == old(self).entry_condition,
            decreases n - i,
        {
            proof {
                lemma_has_key_take(entries@, i as int);
                lemma_map_of_index(entries@, i as int);
            }
            let k = &entries[i].0;
            let is_layout = match &entries[i].1 {
                Expression::HeapBlockLayout { .. } => true,
                _ => false,
            };
            if k.is_within(root) && !(keep_derefs && k.has_deref()) && (!layouts_only || is_layout) {
                trie_remove(&mut self.value_map, k);
            }
            proof {
                assert(self@ =~= Map::new(
                    |k: Path| m.contains_key(k) && !(removable(k, m[k], *root, keep_derefs, layouts_only) && has_key(entries@.take(i as int + 1), k)),
                    |k: Path| m[k],
                ));
            }
            i += 1;
        }
        proof {
            assert(entries@.take(n as int) =~= entries@);
            assert(self@ =~= without_where(m, *root, keep_derefs, layouts_only));
        }
    }

    /// Rewrites every value that refers into the zeroed block at `address` so
    /// that it refers to the block with the zeroed flag cleared.
    pub fn clear_zeroed_flag(&mut self, address: u64)
        ensures
            final(self)@ == Map::new(
                |k: Path| old(self)@.contains_key(k),
                |k: Path| zeroed_flag_cleared(old(self)@[k], address),
            ),
            final(self).entry_condition == old(self).entry_condition,
    {
        let old_root = Path::HeapBlock { abstract_address: address, is_zeroed: true };
        let new_root = Path::HeapBlock { abstract_address: address, is_zeroed: false };
        let entries = self.entries();
        let ghost m = self@;
        let n = entries.len();
        let mut i: usize = 0;
        proof {
            assert(self@ =~= Map::new(
                |k: Path| m.contains_key(k),
                |k: Path| if has_key(entries@.take(0), k) { zeroed_flag_cleared(m[k], address) } else { m[k] },
            ));
        }
        while i < n
            invariant
                n == entries@.len(),
                i <= n,
                keys_unique(entries@),
                map_of(entries@) == m,
                self@ == Map::new(
                    |k: Path| m.contains_key(k),
                    |k: Path|
                        if has_key(entries@.take(i as int), k) {
                            zeroed_flag_cleared(m[k], address)
                        } else {
                            m[k]
                        },
                ),
                self.entry_condition == old(self).entry_condition,
                old_root == (Path::HeapBlock { abstract_address: address, is_zeroed: true }),
                new_root == (Path::HeapBlock { abstract_address: address, is_zeroed: false }),
            decreases n - i,
        {
            proof {
                lemma_has_key_take(entries@, i as int);
                lemma_map_of_index(entries@, i as int);
                assert forall|j: int| 0 <= j < i implies entries@.take(i as int)[j].0 != entries@[i as int].0 by {
                    assert(entries@[j].0 != entries@[i as int].0);
                }
            }
            let new_value = match &entries[i].1 {
                Expression::Reference(p) => if p.is_within(&old_root) {
                    Some(Expression::Reference(p.replace_root(&old_root, &new_root)))
                } else {
                    None
                },
                Expression::Variable(p) => if p.is_within(&old_root) {
                    Some(Expression::Variable(p.replace_root(&old_root, &new_root)))
                } else {
                    None
                },
                _ => None,
            };
            match new_value {
                Some(v) => {
                    trie_insert(&mut self.value_map, entries[i].0.duplicate(), v);
                },
                None => {},
            }
            proof {
                assert(!has_key(entries@.take(i as int), entries@[i as int].0));
                assert(self@ =~= Map::new(
                    |k: Path| m.contains_key(k),
                    |k: Path|
                        if has_key(entries@.take(i as int + 1), k) {
                            zeroed_flag_cleared(m[k], address)
                        } else {
                            m[k]
                        },
                ));
            }
            i += 1;
        }
        proof {
            assert(entries@.take(n as int) =~= entries@);
            assert(self@ =~= Map::new(
                |k: Path| m.contains_key(k),
                |k: Path| zeroed_flag_cleared(m[k], address),
            ));
        }
    }

    /// Binds `path` to `value` after invalidating every binding of `path` and
    /// of the paths rooted by it.
    pub fn strong_update_value_at(&mut self, path: Path, value: Expression)
        ensures
            final(self)@ == without_within(old(self)@, path).insert(path, value),
            final(self).entry_condition == old(self).entry_condition,
    {
        self.remove_within(&path);
        self.insert(path, value);
    }
}

pub proof fn lemma_has_key_take<K, V>(s: Seq<(K, V)>, i: int)
    requires
        0 <= i < s.len(),
    ensures
        forall|q: K|
            #[trigger] has_key(s.take(i + 1), q) <==> (has_key(s.take(i), q) || q == s[i].0),
{
    let t1 = s.take(i + 1);
    let t0 = s.take(i);
    assert forall|q: K| #[trigger] has_key(t1, q) <==> (has_key(t0, q) || q == s[i].0) by {
        if has_key(t1, q) {
            let a = choose|a: int| 0 <= a < t1.len() && t1[a].0 == q;
            if a < i {
                assert(t0[a].0 == q);
            }
        }
        if has_key(t0, q) {
            let a = choose|a: int| 0 <= a < t0.len() && t0[a].0 == q;
            assert(t1[a].0 == q);
        }
        if q == s[i].0 {
            assert(t1[i].0 == q);
        }
    }
}

} // verus!
