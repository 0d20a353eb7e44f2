use vstd::prelude::*;

verus! {

/// The sequences `f(0)`, ..., `f(n - 1)`, one after the other.
pub open spec fn concat_upto<A>(n: nat, f: spec_fn(int) -> Seq<A>) -> Seq<A>
    decreases n,
{
    if n == 0 {
        Seq::empty()
    } else {
        concat_upto((n - 1) as nat, f) + f(n - 1)
    }
}

/// Each item of a part is an item of the whole.
pub proof fn lemma_concat_holds<A>(n: nat, f: spec_fn(int) -> Seq<A>, i: int, x: A)
    requires
        0 <= i < n,
        f(i).contains(x),
    ensures
        concat_upto(n, f).contains(x),
    decreases n,
{
    let front = concat_upto((n - 1) as nat, f);
    if i == n - 1 {
        let part = f(i);
        let j = choose|j: int| 0 <= j < part.len() && part[j] == x;
        assert(concat_upto(n, f)[front.len() + j] == x);
    } else {
        lemma_concat_holds((n - 1) as nat, f, i, x);
        let j = choose|j: int| 0 <= j < front.len() && front[j] == x;
        assert(concat_upto(n, f)[j] == x);
    }
}

/// Each item of the whole is an item of a part.
pub proof fn lemma_concat_source<A>(n: nat, f: spec_fn(int) -> Seq<A>, x: A) -> (i: int)
    requires
        concat_upto(n, f).contains(x),
    ensures
        0 <= i < n,
        f(i).contains(x),
    decreases n,
{
    let front = concat_upto((n - 1) as nat, f);
    let whole = concat_upto(n, f);
    let j = choose|j: int| 0 <= j < whole.len() && whole[j] == x;
    if n == 0 {
        0
    } else if j < front.len() {
        assert(front[j] == x);
        lemma_concat_source((n - 1) as nat, f, x)
    } else {
        assert(f(n - 1)[j - front.len()] == x);
        n - 1
    }
}

/// The whole is empty exactly where every part is.
pub proof fn lemma_concat_empty<A>(n: nat, f: spec_fn(int) -> Seq<A>)
    ensures
        concat_upto(n, f).len() == 0 <==> (forall|i: int| 0 <= i < n ==> (#[trigger] f(i)).len() == 0),
    decreases n,
{
    if n > 0 {
        lemma_concat_empty((n - 1) as nat, f);
        if concat_upto(n, f).len() == 0 {
            assert forall|i: int| 0 <= i < n implies (#[trigger] f(i)).len() == 0 by {
                if i < n - 1 {
                } else {
                    assert(f(n - 1).len() == 0);
                }
            }
        }
        if forall|i: int| 0 <= i < n ==> (#[trigger] f(i)).len() == 0 {
            assert(f(n - 1).len() == 0);
        }
    }
}

} // verus!
