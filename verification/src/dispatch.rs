//! Pointer dispatch along a hit path (the widgets hit, root first, the
//! deepest last): which widget a press focuses and in which order the
//! widgets see the event.
use vstd::prelude::*;

verus! {

/// The deepest widget of `path` that can take the focus.
pub open spec fn deepest_focusable_spec(path: Seq<usize>, focusable: Seq<bool>) -> Option<usize>
    decreases path.len(),
{
    if path.len() == 0 {
        None
    } else if focusable[path.last() as int] {
        Some(path.last())
    } else {
        deepest_focusable_spec(path.drop_last(), focusable)
    }
}

/// The widget a press on `path` focuses: the deepest focusable one, if any
/// (`focusable[w]` tells whether widget `w` can take the focus).
pub fn deepest_focusable(path: &[usize], focusable: &[bool]) -> (r: Option<usize>)
    requires
        forall|i: int| 0 <= i < path@.len() ==> path@[i] < focusable@.len(),
    ensures
        r == deepest_focusable_spec(path@, focusable@),
{
    let mut i: usize = path.len();
    proof {
        assert(path@.take(i as int) =~= path@);
    }
    while i > 0
        invariant
            i <= path@.len(),
            forall|k: int| 0 <= k < path@.len() ==> path@[k] < focusable@.len(),
            deepest_focusable_spec(path@, focusable@) == deepest_focusable_spec(path@.take(i as int), focusable@),
        decreases i,
    {
        let w = path[i - 1];
        let ghost pre = path@.take(i as int);
        assert(pre.drop_last() =~= path@.take(i - 1));
        if focusable[w] {
            return Some(w);
        }
        i = i - 1;
    }
    proof {
        assert(path@.take(0) =~= Seq::<usize>::empty());
    }
    None
}

/// The widgets a pointer event visits, in order: down the path from the
/// root to the deepest widget, then back up to the root without the deepest
/// widget again.
pub open spec fn propagation_spec(path: Seq<usize>) -> Seq<usize> {
    if path.len() == 0 {
        Seq::empty()
    } else {
        path + path.drop_last().reverse()
    }
}

/// The order in which the widgets of `path` see a pointer event (each may
/// stop it, ending the walk).
pub fn propagation_order(path: &[usize]) -> (r: Vec<usize>)
    ensures
        r@ == propagation_spec(path@),
{
    let n = path.len();
    let mut r: Vec<usize> = Vec::new();
    let mut i: usize = 0;
    while i < n
        invariant
            i <= n,
            n == path@.len(),
            r@ == path@.take(i as int),
        decreases n - i,
    {
        r.push(path[i]);
        i = i + 1;
        assert(r@ =~= path@.take(i as int));
    }
    if n == 0 {
        return r;
    }
    let mut j: usize = n - 1;
    proof {
        assert(r@ =~= path@);
        assert(path@.drop_last().subrange(j as int, n - 1).reverse() =~= Seq::<usize>::empty());
    }
    while j > 0
        invariant
            j <= n - 1,
            n == path@.len(),
            n > 0,
            r@ == path@ + path@.drop_last().subrange(j as int, n - 1).reverse(),
        decreases j,
    {
        j = j - 1;
        r.push(path[j]);
        assert(r@ =~= path@ + path@.drop_last().subrange(j as int, n - 1).reverse());
    }
    proof {
        assert(path@.drop_last().subrange(0, n - 1) =~= path@.drop_last());
    }
    r
}

/// Law: on a non-empty path the deepest widget sees an event once and each
/// of the others twice, once on the way down and once on the way up.
pub proof fn law_propagation_visits(path: Seq<usize>)
    requires
        path.len() > 0,
    ensures
        propagation_spec(path).len() == 2 * path.len() - 1,
        forall|k: int| 0 <= k < path.len() ==> #[trigger] propagation_spec(path)[k] == path[k],
        forall|k: int|
            0 <= k < path.len() - 1 ==> propagation_spec(path)[2 * path.len() - 2 - k] == path[k],
{
}

} // verus!
