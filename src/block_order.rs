//! The order in which the blocks of a body are visited: each block after its
//! predecessors, except where a predecessor is reached through a back edge;
//! the target of a back edge is a loop anchor.

use vstd::prelude::*;

verus! {

/// The number of blocks not yet marked.
pub open spec fn count_unmarked(s: Seq<bool>) -> nat
    decreases s.len(),
{
    if s.len() == 0 {
        0
    } else {
        count_unmarked(s.drop_last()) + if s.last() {
            0nat
        } else {
            1nat
        }
    }
}

/// Every block marked in `a` is marked in `b`.
pub open spec fn marks_kept(a: Seq<bool>, b: Seq<bool>) -> bool {
    a.len() == b.len() && forall|i: int| 0 <= i < a.len() && #[trigger] a[i] ==> b[i]
}

pub proof fn lemma_count_unmarked_decreases(a: Seq<bool>, b: Seq<bool>, i: int)
    requires
        marks_kept(a, b),
        0 <= i < a.len(),
        !a[i],
        b[i],
    ensures
        count_unmarked(b) < count_unmarked(a),
    decreases a.len(),
{
    lemma_count_unmarked_monotone(a.drop_last(), b.drop_last());
    if i < a.len() - 1 {
        assert(marks_kept(a.drop_last(), b.drop_last()));
        assert(a.drop_last()[i] == a[i]);
        lemma_count_unmarked_decreases(a.drop_last(), b.drop_last(), i);
    }
}

pub proof fn lemma_count_unmarked_monotone(a: Seq<bool>, b: Seq<bool>)
    requires
        marks_kept(a, b),
    ensures
        count_unmarked(b) <= count_unmarked(a),
    decreases a.len(),
{
    if a.len() > 0 {
        assert(marks_kept(a.drop_last(), b.drop_last())) by {
            assert forall|i: int| 0 <= i < a.len() - 1 && #[trigger] a.drop_last()[i] implies b.drop_last()[i] by {
                assert(a[i]);
            }
        }
        lemma_count_unmarked_monotone(a.drop_last(), b.drop_last());
        assert(a.last() ==> b.last()) by {
            assert(a[a.len() - 1] ==> b[a.len() - 1]);
        }
    }
}

/// The shape of a body: the predecessors of each block, and the dominance
/// relation (`dominates[a][b]` when every path to `b` passes through `a`).
pub open spec fn graph_wf(predecessors: Seq<Vec<usize>>, dominates: Seq<Vec<bool>>) -> bool {
    &&& dominates.len() == predecessors.len()
    &&& forall|b: int| 0 <= b < dominates.len() ==> (#[trigger] dominates[b])@.len() == predecessors.len()
    &&& forall|b: int, j: int|
        0 <= b < predecessors.len() && 0 <= j < predecessors[b]@.len() ==> (#[trigger] predecessors[b]@[j]) < predecessors.len()
}

/// Whether some predecessor of `b` is dominated by `b`: `b` then heads a loop.
pub open spec fn is_back_edge_target(predecessors: Seq<Vec<usize>>, dominates: Seq<Vec<bool>>, b: int) -> bool {
    exists|j: int|
        0 <= j < predecessors[b]@.len() && #[trigger] dominates[b]@[predecessors[b]@[j] as int]
}

/// The listed blocks are distinct, in range and marked.
pub open spec fn listed_wf(order: Seq<usize>, added: Seq<bool>) -> bool {
    &&& forall|i: int, j: int| 0 <= i < j < order.len() ==> order[i] != order[j]
    &&& forall|i: int| 0 <= i < order.len() ==> (#[trigger] order[i]) < added.len() && added[order[i] as int]
}

/// Unmarked blocks are no loop anchors, and each listed block is one exactly
/// when it is the target of a back edge.
pub open spec fn anchors_wf(
    predecessors: Seq<Vec<usize>>,
    dominates: Seq<Vec<bool>>,
    anchors: Seq<bool>,
    added: Seq<bool>,
    order: Seq<usize>,
) -> bool {
    &&& forall|b: int| 0 <= b < added.len() && !added[b] ==> !#[trigger] anchors[b]
    &&& forall|i: int|
        0 <= i < order.len() ==> anchors[(#[trigger] order[i]) as int] == is_back_edge_target(
            predecessors,
            dominates,
            order[i] as int,
        )
}

/// Whether one of the first `j` predecessors of `b` is dominated by `b`.
pub open spec fn back_edge_among(predecessors: Seq<Vec<usize>>, dominates: Seq<Vec<bool>>, b: int, j: int) -> bool {
    exists|k: int| 0 <= k < j && #[trigger] dominates[b]@[predecessors[b]@[k] as int]
}

/// Lists `root` after those of its predecessors, recursively, that are not
/// yet listed and are not reached through a back edge; `root` becomes a loop
/// anchor exactly when it is the target of a back edge.
pub fn add_predecessors_then_root_block(
    predecessors: &Vec<Vec<usize>>,
    dominates: &Vec<Vec<bool>>,
    root: usize,
    loop_anchors: &mut Vec<bool>,
    block_indices: &mut Vec<usize>,
    already_added: &mut Vec<bool>,
)
    requires
        graph_wf(predecessors@, dominates@),
        root < predecessors@.len(),
        old(already_added)@.len() == predecessors@.len(),
        old(loop_anchors)@.len() == predecessors@.len(),
        listed_wf(old(block_indices)@, old(already_added)@),
        anchors_wf(predecessors@, dominates@, old(loop_anchors)@, old(already_added)@, old(block_indices)@),
    ensures
        marks_kept(old(already_added)@, final(already_added)@),
        final(already_added)@[root as int],
        final(loop_anchors)@.len() == predecessors@.len(),
        anchors_wf(predecessors@, dominates@, final(loop_anchors)@, final(already_added)@, final(block_indices)@),
        forall|b: int|
            0 <= b < predecessors@.len() && old(already_added)@[b] ==> #[trigger] final(loop_anchors)@[b]
                == old(loop_anchors)@[b],
        listed_wf(final(block_indices)@, final(already_added)@),
        final(block_indices)@.len() >= old(block_indices)@.len(),
        final(block_indices)@.take(old(block_indices)@.len() as int) == old(block_indices)@,
        forall|i: int|
            old(block_indices)@.len() <= i < final(block_indices)@.len() ==> !old(already_added)@[(
            #[trigger] final(block_indices)@[i]) as int],
        forall|b: int|
            0 <= b < predecessors@.len() && #[trigger] final(already_added)@[b] && !old(already_added)@[b]
                ==> final(block_indices)@.contains(b as usize),
    decreases count_unmarked(old(already_added)@),
{
    if already_added[root] {
        return;
    }
    let ghost entry_added = already_added@;
    let ghost entry_order = block_indices@;
    let ghost entry_anchors = loop_anchors@;
    already_added.set(root, true);
    proof {
        assert(listed_wf(block_indices@, already_added@)) by {
            assert forall|i: int| 0 <= i < block_indices@.len() implies (#[trigger] block_indices@[i]) < already_added@.len() && already_added@[block_indices@[i] as int] by {
                assert(entry_added[block_indices@[i] as int]);
            }
        }
    }
    let preds = &predecessors[root];
    let n = preds.len();
    let mut j: usize = 0;
    while j < n
        invariant
            graph_wf(predecessors@, dominates@),
            root < predecessors@.len(),
            *preds == predecessors@[root as int],
            n == preds@.len(),
            j <= n,
            !entry_added[root as int],
            entry_added == old(already_added)@,
            entry_order == old(block_indices)@,
            entry_anchors == old(loop_anchors)@,
            listed_wf(entry_order, entry_added),
            already_added@.len() == predecessors@.len(),
            loop_anchors@.len() == predecessors@.len(),
            marks_kept(entry_added, already_added@),
            already_added@[root as int],
            forall|b: int| 0 <= b < already_added@.len() && !already_added@[b] ==> !#[trigger] loop_anchors@[b],
            forall|i: int|
                0 <= i < block_indices@.len() ==> loop_anchors@[(#[trigger] block_indices@[i]) as int]
                    == is_back_edge_target(predecessors@, dominates@, block_indices@[i] as int),
            forall|b: int|
                0 <= b < predecessors@.len() && entry_added[b] ==> #[trigger] loop_anchors@[b]
                    == entry_anchors[b],
            loop_anchors@[root as int] == back_edge_among(predecessors@, dominates@, root as int, j as int),
            listed_wf(block_indices@, already_added@),
            block_indices@.len() >= entry_order.len(),
            block_indices@.take(entry_order.len() as int) == entry_order,
            forall|i: int|
                entry_order.len() <= i < block_indices@.len() ==> !entry_added[(
                #[trigger] block_indices@[i]) as int] && block_indices@[i] != root,
            forall|b: int|
                0 <= b < predecessors@.len() && #[trigger] already_added@[b] && !entry_added[b] && b
                    != root ==> block_indices@.contains(b as usize),
        decreases n - j,
    {
        let pred = preds[j];
        if dominates[root][pred] {
            let ghost before_anchors = loop_anchors@;
            loop_anchors.set(root, true);
            proof {
                assert(dominates@[root as int]@[predecessors@[root as int]@[j as int] as int]);
                assert(back_edge_among(predecessors@, dominates@, root as int, j as int + 1));
                assert forall|i: int|
                    0 <= i < block_indices@.len() implies loop_anchors@[(#[trigger] block_indices@[i]) as int]
                        == is_back_edge_target(predecessors@, dominates@, block_indices@[i] as int) by {
                    if i < entry_order.len() {
                        assert(block_indices@.take(entry_order.len() as int)[i] == entry_order[i]);
                        assert(entry_added[entry_order[i] as int]);
                    }
                    assert(block_indices@[i] != root);
                    assert(loop_anchors@[block_indices@[i] as int] == before_anchors[block_indices@[i] as int]);
                }
            }
            j += 1;
            continue;
        }
        proof {
            assert forall|k: int| 0 <= k < j + 1 && #[trigger] dominates@[root as int]@[predecessors@[root as int]@[k] as int]
                implies k < j by {
            }
        }
        if already_added[pred] {
            j += 1;
            continue;
        }
        let ghost before_added = already_added@;
        let ghost before_order = block_indices@;
        proof {
            lemma_count_unmarked_decreases(entry_added, already_added@, root as int);
            lemma_count_unmarked_monotone(entry_added, already_added@);
        }
        add_predecessors_then_root_block(predecessors, dominates, pred, loop_anchors, block_indices, already_added);
        proof {
            assert(before_added[root as int]);
            assert forall|b: int|
                0 <= b < predecessors@.len() && entry_added[b] implies #[trigger] loop_anchors@[b]
                    == entry_anchors[b] by {
                assert(before_added[b]);
            }
            assert forall|i: int|
                entry_order.len() <= i < block_indices@.len() implies !entry_added[(
                #[trigger] block_indices@[i]) as int] && block_indices@[i] != root by {
                if i < before_order.len() {
                    assert(block_indices@.take(before_order.len() as int)[i] == before_order[i]);
                } else {
                    assert(!before_added[block_indices@[i] as int]);
                }
            }
            assert(block_indices@.take(entry_order.len() as int) =~= entry_order) by {
                assert(block_indices@.take(before_order.len() as int) == before_order);
                assert forall|i: int| 0 <= i < entry_order.len() implies block_indices@[i] == entry_order[i] by {
                    assert(block_indices@.take(before_order.len() as int)[i] == before_order[i]);
                    assert(before_order.take(entry_order.len() as int)[i] == entry_order[i]);
                }
            }
            assert forall|b: int|
                0 <= b < predecessors@.len() && #[trigger] already_added@[b] && !entry_added[b] && b
                    != root implies block_indices@.contains(b as usize) by {
                if before_added[b] {
                    let k = choose|k: int| 0 <= k < before_order.len() && before_order[k] == b as usize;
                    assert(block_indices@.take(before_order.len() as int)[k] == before_order[k]);
                    assert(block_indices@[k] == b as usize);
                }
            }
            assert(marks_kept(entry_added, already_added@)) by {
                assert forall|i: int| 0 <= i < entry_added.len() && #[trigger] entry_added[i] implies already_added@[i] by {
                    assert(before_added[i]);
                }
            }
        }
        j += 1;
    }
    let ghost before_push = block_indices@;
    block_indices.push(root);
    proof {
        assert(block_indices@.take(entry_order.len() as int) =~= entry_order) by {
            assert forall|i: int| 0 <= i < entry_order.len() implies block_indices@[i] == entry_order[i] by {
                assert(before_push.take(entry_order.len() as int)[i] == entry_order[i]);
            }
        }
        assert forall|i: int, k: int| 0 <= i < k < block_indices@.len() implies block_indices@[i] != block_indices@[k] by {
            if k == block_indices@.len() - 1 && i < entry_order.len() {
                assert(before_push.take(entry_order.len() as int)[i] == entry_order[i]);
                assert(entry_added[entry_order[i] as int]);
            }
        }
        assert forall|b: int|
            0 <= b < predecessors@.len() && #[trigger] already_added@[b] && !entry_added[b]
                implies block_indices@.contains(b as usize) by {
            if b == root as int {
                assert(block_indices@[block_indices@.len() - 1] == root);
            } else {
                let k = choose|k: int| 0 <= k < before_push.len() && before_push[k] == b as usize;
                assert(block_indices@[k] == b as usize);
            }
        }
        assert forall|i: int|
            0 <= i < block_indices@.len() implies loop_anchors@[(#[trigger] block_indices@[i]) as int]
                == is_back_edge_target(predecessors@, dominates@, block_indices@[i] as int) by {
            if i < before_push.len() {
                assert(block_indices@[i] == before_push[i]);
            }
        }
    }
}

/// A list of distinct numbers below `n` that holds each of them has `n` entries.
pub proof fn lemma_permutation_len(s: Seq<usize>, n: int)
    requires
        0 <= n <= usize::MAX,
        forall|i: int, j: int| 0 <= i < j < s.len() ==> s[i] != s[j],
        forall|i: int| 0 <= i < s.len() ==> (#[trigger] s[i]) < n,
        forall|b: usize| (b as int) < n ==> #[trigger] s.contains(b),
    ensures
        s.len() == n,
{
    let m = s.map_values(|x: usize| x as int);
    assert(m.no_duplicates()) by {
        assert forall|i: int, j: int| 0 <= i < m.len() && 0 <= j < m.len() && i != j implies m[i] != m[j] by {
            if i < j {
                assert(s[i] != s[j]);
            } else {
                assert(s[j] != s[i]);
            }
        }
    }
    m.unique_seq_to_set();
    vstd::set_lib::lemma_int_range(0, n);
    let r = vstd::set_lib::set_int_range(0, n);
    assert forall|x: int| #[trigger] m.to_set().contains(x) <==> r.contains(x) by {
        if m.to_set().contains(x) {
            let i = choose|i: int| 0 <= i < m.len() && m[i] == x;
            assert(s[i] < n);
        }
        if r.contains(x) {
            assert(s.contains((x as usize)));
            let i = choose|i: int| 0 <= i < s.len() && s[i] == x as usize;
            assert(m[i] == x);
            assert(m.contains(x));
        }
    }
    assert(m.to_set() =~= r);
}

/// The blocks of a body in visiting order, and which of them are loop anchors.
pub fn get_sorted_block_indices(predecessors: &Vec<Vec<usize>>, dominates: &Vec<Vec<bool>>) -> (r: (
    Vec<usize>,
    Vec<bool>,
))
    requires
        graph_wf(predecessors@, dominates@),
    ensures
        r.0@.len() == predecessors@.len(),
        forall|i: int, j: int| 0 <= i < j < r.0@.len() ==> r.0@[i] != r.0@[j],
        forall|b: usize| (b as int) < predecessors@.len() ==> #[trigger] r.0@.contains(b),
        r.1@.len() == predecessors@.len(),
        forall|b: int|
            0 <= b < predecessors@.len() ==> (#[trigger] r.1@[b] <==> is_back_edge_target(predecessors@, dominates@, b)),
{
    let n = predecessors.len();
    let mut block_indices: Vec<usize> = Vec::new();
    let mut already_added: Vec<bool> = Vec::new();
    let mut loop_anchors: Vec<bool> = Vec::new();
    let mut i: usize = 0;
    while i < n
        invariant
            n == predecessors@.len(),
            i <= n,
            already_added@.len() == i,
            loop_anchors@.len() == i,
            forall|k: int| 0 <= k < i ==> !(#[trigger] already_added@[k]),
            forall|k: int| 0 <= k < i ==> !(#[trigger] loop_anchors@[k]),
        decreases n - i,
    {
        already_added.push(false);
        loop_anchors.push(false);
        i += 1;
    }
    let mut bb: usize = 0;
    while bb < n
        invariant
            graph_wf(predecessors@, dominates@),
            n == predecessors@.len(),
            bb <= n,
            already_added@.len() == n,
            loop_anchors@.len() == n,
            listed_wf(block_indices@, already_added@),
            forall|b: int| 0 <= b < n && #[trigger] already_added@[b] ==> block_indices@.contains(b as usize),
            forall|b: int| 0 <= b < bb ==> #[trigger] already_added@[b],
            anchors_wf(predecessors@, dominates@, loop_anchors@, already_added@, block_indices@),
        decreases n - bb,
    {
        let ghost before_added = already_added@;
        let ghost before_order = block_indices@;
        add_predecessors_then_root_block(predecessors, dominates, bb, &mut loop_anchors, &mut block_indices, &mut already_added);
        proof {
            assert forall|b: int| 0 <= b < n && #[trigger] already_added@[b] implies block_indices@.contains(b as usize) by {
                if before_added[b] {
                    let k = choose|k: int| 0 <= k < before_order.len() && before_order[k] == b as usize;
                    assert(block_indices@.take(before_order.len() as int)[k] == before_order[k]);
                    assert(block_indices@[k] == b as usize);
                }
            }
            assert forall|b: int| 0 <= b < bb + 1 implies #[trigger] already_added@[b] by {
                if b < bb {
                    assert(before_added[b]);
                }
            }
        }
        bb += 1;
    }
    proof {
        assert forall|b: usize| (b as int) < n implies #[trigger] block_indices@.contains(b) by {
            assert(already_added@[b as int]);
        }
        lemma_permutation_len(block_indices@, n as int);
        assert forall|b: int| 0 <= b < n implies (#[trigger] loop_anchors@[b] <==> is_back_edge_target(predecessors@, dominates@, b)) by {
            assert(block_indices@.contains(b as usize));
            let k = choose|k: int| 0 <= k < block_indices@.len() && block_indices@[k] == b as usize;
            assert(loop_anchors@[block_indices@[k] as int] == is_back_edge_target(predecessors@, dominates@, block_indices@[k] as int));
        }
    }
    (block_indices, loop_anchors)
}

} // verus!
