use vstd::prelude::*;

use crate::graph::{FunctionGraph, GraphView};
use crate::types::BlockId;

verus! {

/// The edge at `k` of the instruction at `i` of block `a` leads to block `b`.
pub open spec fn points_to(g: GraphView, a: int, i: int, k: int, b: int) -> bool {
    &&& 0 <= a < g.blocks.len()
    &&& 0 <= b < g.blocks.len()
    &&& 0 <= i < g.blocks[a].insts.len()
    &&& 0 <= k < g.blocks[a].insts[i].edges().len()
    &&& g.blocks[a].insts[i].edges()[k].target.id() == b
}

/// Some terminator of block `a` has an edge to block `b`.
pub open spec fn edge(g: GraphView, a: int, b: int) -> bool {
    exists|i: int, k: int| points_to(g, a, i, k, b)
}

/// `path` starts at the entry and follows edges.
pub open spec fn is_path(g: GraphView, path: Seq<int>) -> bool {
    &&& path.len() >= 1
    &&& path[0] == 0
    &&& g.blocks.len() >= 1
    &&& forall|j: int| 0 <= j < path.len() - 1 ==> edge(g, #[trigger] path[j], path[j + 1])
}

/// A path of terminator edges leads from the entry to block `b`.
pub open spec fn reachable(g: GraphView, b: int) -> bool {
    exists|path: Seq<int>| is_path(g, path) && #[trigger] path.last() == b
}

/// The entry is reachable.
pub proof fn lemma_entry_reachable(g: GraphView)
    requires
        g.blocks.len() >= 1,
    ensures
        reachable(g, 0),
{
    let path = seq![0int];
    assert(is_path(g, path) && path.last() == 0);
}

/// A block with an edge from a reachable block is reachable.
pub proof fn lemma_step_reachable(g: GraphView, a: int, b: int)
    requires
        reachable(g, a),
        edge(g, a, b),
    ensures
        reachable(g, b),
{
    let path = choose|path: Seq<int>| is_path(g, path) && #[trigger] path.last() == a;
    let longer = path.push(b);
    assert forall|j: int| 0 <= j < longer.len() - 1 implies edge(g, #[trigger] longer[j], longer[j + 1]) by {
        if j < path.len() - 1 {
            assert(longer[j] == path[j] && longer[j + 1] == path[j + 1]);
        }
    }
    assert(is_path(g, longer) && longer.last() == b);
}

/// A set of blocks that holds the entry and, with a block, each block that
/// an edge leads to from it, holds every block on a path.
pub proof fn lemma_closed_holds_path(g: GraphView, seen: Seq<bool>, path: Seq<int>)
    requires
        is_path(g, path),
        seen.len() == g.blocks.len(),
        seen[0],
        forall|a: int, b: int| 0 <= a < seen.len() && seen[a] && #[trigger] edge(g, a, b) ==> seen[b],
    ensures
        0 <= path.last() < seen.len(),
        seen[path.last()],
    decreases path.len(),
{
    if path.len() > 1 {
        let shorter = path.drop_last();
        assert forall|j: int| 0 <= j < shorter.len() - 1 implies edge(g, #[trigger] shorter[j], shorter[j + 1]) by {
            assert(shorter[j] == path[j] && shorter[j + 1] == path[j + 1]);
        }
        lemma_closed_holds_path(g, seen, shorter);
        let j = path.len() - 2;
        assert(shorter.last() == path[j]);
        assert(edge(g, path[j], path[j + 1]));
    }
}

/// How many entries of `seen` are false.
pub open spec fn unseen(seen: Seq<bool>) -> nat
    decreases seen.len(),
{
    if seen.len() == 0 {
        0
    } else {
        unseen(seen.drop_last()) + if seen.last() {
            0nat
        } else {
            1nat
        }
    }
}

proof fn lemma_mark(seen: Seq<bool>, i: int)
    requires
        0 <= i < seen.len(),
        !seen[i],
    ensures
        unseen(seen.update(i, true)) + 1 == unseen(seen),
    decreases seen.len(),
{
    let marked = seen.update(i, true);
    if i == seen.len() - 1 {
        assert(marked.drop_last() =~= seen.drop_last());
    } else {
        lemma_mark(seen.drop_last(), i);
        assert(marked.drop_last() =~= seen.drop_last().update(i, true));
    }
}

/// The blocks that an edge leads to from block `a`.
fn successors(g: &FunctionGraph, a: usize) -> (r: Vec<usize>)
    requires
        a < g@.blocks.len(),
    ensures
        forall|j: int| 0 <= j < r@.len() ==> (#[trigger] r@[j]) < g@.blocks.len(),
        forall|j: int| 0 <= j < r@.len() ==> edge(g@, a as int, #[trigger] r@[j] as int),
        forall|b: int| edge(g@, a as int, b) ==> exists|j: int| 0 <= j < r@.len() && #[trigger] r@[j] == b,
{
    let block = g.block(BlockId::from_index(a));
    let n = g.block_count();
    let mut r: Vec<usize> = Vec::new();
    let mut i: usize = 0;
    while i < block.len()
        invariant
            i <= block@.insts.len(),
            a < g@.blocks.len(),
            n == g@.blocks.len(),
            block@ == g@.blocks[a as int],
            forall|j: int| 0 <= j < r@.len() ==> (#[trigger] r@[j]) < n,
            forall|j: int| 0 <= j < r@.len() ==> edge(g@, a as int, #[trigger] r@[j] as int),
            forall|b: int, i2: int, k: int|
                0 <= i2 < i && #[trigger] points_to(g@, a as int, i2, k, b) ==> exists|j: int|
                    0 <= j < r@.len() && #[trigger] r@[j] == b,
        decreases block@.insts.len() - i,
    {
        let targets = block.inst(i).targets();
        let mut k: usize = 0;
        while k < targets.len()
            invariant
                k <= targets.len(),
                i < block@.insts.len(),
                a < g@.blocks.len(),
                n == g@.blocks.len(),
                block@ == g@.blocks[a as int],
                targets@.len() == block@.insts[i as int].edges().len(),
                forall|k2: int| 0 <= k2 < targets@.len() ==> targets@[k2] == (#[trigger] block@.insts[i as int].edges()[k2]).target,
                forall|j: int| 0 <= j < r@.len() ==> (#[trigger] r@[j]) < n,
                forall|j: int| 0 <= j < r@.len() ==> edge(g@, a as int, #[trigger] r@[j] as int),
                forall|b: int, i2: int, k2: int|
                    0 <= i2 < i && #[trigger] points_to(g@, a as int, i2, k2, b) ==> exists|j: int|
                        0 <= j < r@.len() && #[trigger] r@[j] == b,
                forall|b: int, k2: int|
                    0 <= k2 < k && #[trigger] points_to(g@, a as int, i as int, k2, b) ==> exists|j: int|
                        0 <= j < r@.len() && #[trigger] r@[j] == b,
            decreases targets.len() - k,
        {
            let t = targets[k].index();
            if t < n {
                let ghost before = r@;
                r.push(t);
                proof {
                    assert(block@.insts[i as int].edges()[k as int].target.id() == t);
                    assert(points_to(g@, a as int, i as int, k as int, t as int));
                    assert forall|b: int, i2: int, k2: int|
                        0 <= i2 < i && #[trigger] points_to(g@, a as int, i2, k2, b) implies exists|j: int|
                        0 <= j < r@.len() && #[trigger] r@[j] == b by {
                        let j = choose|j: int| 0 <= j < before.len() && #[trigger] before[j] == b;
                        assert(r@[j] == b);
                    }
                    assert forall|b: int, k2: int|
                        0 <= k2 < k + 1 && #[trigger] points_to(g@, a as int, i as int, k2, b) implies exists|j: int|
                        0 <= j < r@.len() && #[trigger] r@[j] == b by {
                        if k2 < k {
                            let j = choose|j: int| 0 <= j < before.len() && #[trigger] before[j] == b;
                            assert(r@[j] == b);
                        } else {
                            assert(r@[before.len() as int] == b);
                        }
                    }
                }
            }
            k += 1;
        }
        i += 1;
    }
    proof {
        assert forall|b: int| edge(g@, a as int, b) implies exists|j: int|
            0 <= j < r@.len() && #[trigger] r@[j] == b by {
            let (i2, k2) = choose|i2: int, k2: int| points_to(g@, a as int, i2, k2, b);
            assert(points_to(g@, a as int, i2, k2, b));
        }
    }
    r
}

/// For each block, whether a path leads from the entry to it.
pub fn reachable_blocks(g: &FunctionGraph) -> (seen: Vec<bool>)
    requires
        g.wf(),
    ensures
        seen@.len() == g@.blocks.len(),
        forall|b: int| 0 <= b < seen@.len() ==> seen@[b] == reachable(g@, b),
{
    let n = g.block_count();
    let mut seen: Vec<bool> = Vec::new();
    let mut c: usize = 0;
    while c < n
        invariant
            c <= n,
            seen@.len() == c,
            forall|b: int| 0 <= b < c ==> !seen@[b],
        decreases n - c,
    {
        seen.push(false);
        c += 1;
    }
    let mut work: Vec<usize> = Vec::new();
    seen.set(0, true);
    work.push(0);
    proof {
        lemma_entry_reachable(g@);
        assert(work@[0] == 0);
    }
    while work.len() > 0
        invariant
            n == g@.blocks.len(),
            n >= 1,
            seen@.len() == n,
            seen@[0],
            forall|b: int| 0 <= b < n && seen@[b] ==> reachable(g@, b),
            forall|j: int| 0 <= j < work@.len() ==> (#[trigger] work@[j]) < n && seen@[work@[j] as int],
            forall|a: int, b: int|
                0 <= a < n && seen@[a] && #[trigger] edge(g@, a, b) ==> seen@[b] || work@.contains(
                    a as usize,
                ),
        decreases unseen(seen@), work@.len(),
    {
        let ghost work_before = work@;
        let ghost unseen_before = unseen(seen@);
        let a = work.pop().unwrap();
        let succ = successors(g, a);
        proof {
            assert forall|x: int, b: int|
                0 <= x < n && seen@[x] && #[trigger] edge(g@, x, b) implies seen@[b] || work@.contains(
                x as usize,
            ) || x == a by {
                if !seen@[b] && x != a {
                    let j = choose|j: int| 0 <= j < work_before.len() && work_before[j] == x as usize;
                    assert(work@[j] == x as usize);
                }
            }
        }
        let mut k: usize = 0;
        while k < succ.len()
            invariant
                k <= succ.len(),
                n == g@.blocks.len(),
                a < n,
                seen@.len() == n,
                seen@[0],
                work_before.len() >= 1,
                unseen(seen@) + work@.len() == unseen_before + work_before.len() - 1,
                unseen(seen@) <= unseen_before,
                forall|b: int| 0 <= b < n && seen@[b] ==> reachable(g@, b),
                seen@[a as int],
                forall|j: int| 0 <= j < work@.len() ==> (#[trigger] work@[j]) < n && seen@[work@[j] as int],
                forall|j: int| 0 <= j < succ@.len() ==> (#[trigger] succ@[j]) < n,
                forall|j: int| 0 <= j < succ@.len() ==> edge(g@, a as int, #[trigger] succ@[j] as int),
                forall|j: int| 0 <= j < k ==> seen@[(#[trigger] succ@[j]) as int],
                forall|x: int, b: int|
                    0 <= x < n && seen@[x] && #[trigger] edge(g@, x, b) ==> seen@[b] || work@.contains(
                        x as usize,
                    ) || x == a,
            decreases succ.len() - k,
        {
            let s = succ[k];
            assert(edge(g@, a as int, s as int));
            if !seen[s] {
                let ghost seen_before = seen@;
                let ghost work_mid = work@;
                seen.set(s, true);
                work.push(s);
                proof {
                    lemma_mark(seen_before, s as int);
                    lemma_step_reachable(g@, a as int, s as int);
                    assert forall|x: int, b: int|
                        0 <= x < n && seen@[x] && #[trigger] edge(g@, x, b) implies seen@[b] || work@.contains(
                        x as usize,
                    ) || x == a by {
                        if x == s {
                            assert(work@[work_mid.len() as int] == s);
                        } else if !seen@[b] && x != a {
                            assert(seen_before[x]);
                            let j = choose|j: int| 0 <= j < work_mid.len() && work_mid[j] == x as usize;
                            assert(work@[j] == x as usize);
                        }
                    }
                }
            }
            k += 1;
        }
        proof {
            assert forall|x: int, b: int|
                0 <= x < n && seen@[x] && #[trigger] edge(g@, x, b) implies seen@[b] || work@.contains(
                x as usize,
            ) by {
                if x == a {
                    let j = choose|j: int| 0 <= j < succ@.len() && #[trigger] succ@[j] == b;
                    assert(seen@[succ@[j] as int]);
                }
            }
        }
    }
    proof {
        assert forall|b: int| 0 <= b < n && reachable(g@, b) implies seen@[b] by {
            let path = choose|path: Seq<int>| is_path(g@, path) && #[trigger] path.last() == b;
            assert forall|x: int, y: int| 0 <= x < seen@.len() && seen@[x] && #[trigger] edge(g@, x, y) implies seen@[y] by {
                assert(!work@.contains(x as usize));
            }
            lemma_closed_holds_path(g@, seen@, path);
        }
    }
    seen
}

} // verus!
