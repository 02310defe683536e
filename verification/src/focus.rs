//! Focus management over a tree of nodes.
//!
//! Focus is held as an *identity chain* (leaf first, root last): the identities
//! of the focused node and of each of its ancestors. Identities survive a
//! rebuild of the tree, so a chain can be located again in a fresh tree.
//!
//! - click focus: the deepest focusable node of a hit chain;
//! - Tab / Shift+Tab: the next / previous focusable node in document order;
//! - locate: the path of nodes that a chain names in the current tree.
use vstd::prelude::*;

verus! {

/// The part of a node that focus handling reads.
pub struct FocusNode {
    /// Identity shared by every rebuild of the same node.
    pub identity: u64,
    /// Whether the node can take focus.
    pub focusable: bool,
    /// Hidden nodes are skipped by Tab navigation.
    pub hidden: bool,
    /// Children in document order.
    pub children: Vec<FocusNode>,
}

/// Chain of identities from the focused leaf up to its root.
pub type FocusPath = Vec<u64>;

/// Whether Tab navigation may land on the node.
pub open spec fn tab_stop(n: FocusNode) -> bool {
    n.focusable && !n.hidden
}

/// The chains (leaf first) of every Tab stop of the forest `nodes`, in document
/// order, where `prefix` is the chain (leaf first) of the forest's parent.
pub open spec fn chain_entries(nodes: Seq<FocusNode>, prefix: Seq<u64>) -> Seq<Seq<u64>>
    decreases nodes,
{
    if nodes.len() == 0 {
        seq![]
    } else {
        let n = nodes[0];
        let p = seq![n.identity] + prefix;
        let own: Seq<Seq<u64>> = if tab_stop(n) { seq![p] } else { seq![] };
        proof {
            assert(decreases_to!(nodes => nodes[0]));
            assert(decreases_to!(n => n.children));
            assert(decreases_to!(n.children => n.children@));
            vstd::seq::axiom_seq_len_decreases(nodes, nodes.drop_first());
        }
        own + chain_entries(n.children@, p) + chain_entries(nodes.drop_first(), prefix)
    }
}

/// The Tab order of a whole tree: one chain (leaf first) per Tab stop.
pub open spec fn focus_chains(roots: Seq<FocusNode>) -> Seq<Seq<u64>> {
    chain_entries(roots, seq![])
}

pub open spec fn index_view(v: Seq<usize>) -> Seq<int> {
    v.map_values(|x: usize| x as int)
}

pub open spec fn chains_view(v: Seq<Vec<u64>>) -> Seq<Seq<u64>> {
    v.map_values(|c: Vec<u64>| c@)
}

proof fn lemma_chain_entries_concat(a: Seq<FocusNode>, b: Seq<FocusNode>, prefix: Seq<u64>)
    ensures
        chain_entries(a + b, prefix) == chain_entries(a, prefix) + chain_entries(b, prefix),
    decreases a.len(),
{
    if a.len() == 0 {
        assert(a + b =~= b);
        assert(chain_entries(a, prefix) =~= seq![]);
        assert(chain_entries(a + b, prefix) =~= chain_entries(a, prefix) + chain_entries(b, prefix));
    } else {
        let ab = a + b;
        assert(ab[0] == a[0]);
        assert(ab.drop_first() =~= a.drop_first() + b);
        lemma_chain_entries_concat(a.drop_first(), b, prefix);
        let n = a[0];
        let p = seq![n.identity] + prefix;
        let own: Seq<Seq<u64>> = if tab_stop(n) { seq![p] } else { seq![] };
        assert(chain_entries(ab, prefix) == own + chain_entries(n.children@, p) + chain_entries(
            ab.drop_first(),
            prefix,
        ));
        assert(chain_entries(a, prefix) == own + chain_entries(n.children@, p) + chain_entries(
            a.drop_first(),
            prefix,
        ));
        assert(chain_entries(ab, prefix) =~= chain_entries(a, prefix) + chain_entries(b, prefix));
    }
}

proof fn lemma_chain_entries_step(nodes: Seq<FocusNode>, i: int, prefix: Seq<u64>)
    requires
        0 <= i < nodes.len(),
    ensures
        chain_entries(nodes.take(i + 1), prefix) == chain_entries(nodes.take(i), prefix)
            + chain_entries(seq![nodes[i]], prefix),
{
    assert(nodes.take(i + 1) =~= nodes.take(i) + seq![nodes[i]]);
    lemma_chain_entries_concat(nodes.take(i), seq![nodes[i]], prefix);
}

proof fn lemma_chain_entries_single(n: FocusNode, prefix: Seq<u64>)
    ensures
        chain_entries(seq![n], prefix) == (if tab_stop(n) {
            seq![seq![n.identity] + prefix]
        } else {
            Seq::<Seq<u64>>::empty()
        }) + chain_entries(n.children@, seq![n.identity] + prefix),
{
    let s = seq![n];
    assert(s[0] == n);
    assert(s.drop_first() =~= Seq::<FocusNode>::empty());
    assert(chain_entries(s.drop_first(), prefix) =~= Seq::<Seq<u64>>::empty());
    let own: Seq<Seq<u64>> = if tab_stop(n) {
        seq![seq![n.identity] + prefix]
    } else {
        Seq::<Seq<u64>>::empty()
    };
    assert(chain_entries(s, prefix) =~= own + chain_entries(n.children@, seq![n.identity] + prefix));
}

fn copy_path(v: &Vec<u64>) -> (r: Vec<u64>)
    ensures
        r@ == v@,
{
    let mut r: Vec<u64> = Vec::new();
    let mut i: usize = 0;
    while i < v.len()
        invariant
            i <= v.len(),
            r@ == v@.take(i as int),
        decreases v.len() - i,
    {
        r.push(v[i]);
        i = i + 1;
        assert(r@ =~= v@.take(i as int));
    }
    assert(v@.take(i as int) =~= v@);
    r
}

/// Appends, in document order, the chain of each Tab stop of `nodes` to `out`;
/// `chain` is the chain (leaf first) of the parent of `nodes`.
fn collect_focusable(nodes: &Vec<FocusNode>, chain: &mut Vec<u64>, out: &mut Vec<Vec<u64>>)
    ensures
        final(chain)@ == old(chain)@,
        chains_view(final(out)@) == chains_view(old(out)@) + chain_entries(nodes@, old(chain)@),
    decreases nodes@,
{
    let ghost out0 = chains_view(out@);
    let ghost prefix = chain@;
    let mut i: usize = 0;
    while i < nodes.len()
        invariant
            i <= nodes.len(),
            chain@ == prefix,
            chains_view(out@) == out0 + chain_entries(nodes@.take(i as int), prefix),
        decreases nodes.len() - i,
    {
        let node = &nodes[i];
        let ghost before = chains_view(out@);
        chain.insert(0, node.identity);
        assert(chain@ =~= seq![node.identity] + prefix);
        if node.focusable && !node.hidden {
            let c = copy_path(chain);
            out.push(c);
            assert(chains_view(out@) =~= before + seq![seq![node.identity] + prefix]);
        }
        let ghost mid = chains_view(out@);
        proof {
            assert(decreases_to!(nodes@ => nodes@[i as int]));
            assert(decreases_to!(nodes@[i as int] => nodes@[i as int].children));
            assert(decreases_to!(nodes@[i as int].children => nodes@[i as int].children@));
        }
        collect_focusable(&node.children, chain, out);
        chain.remove(0);
        assert(chain@ =~= prefix);
        proof {
            lemma_chain_entries_step(nodes@, i as int, prefix);
            lemma_chain_entries_single(nodes@[i as int], prefix);
            let own: Seq<Seq<u64>> = if tab_stop(*node) {
                seq![seq![node.identity] + prefix]
            } else {
                Seq::<Seq<u64>>::empty()
            };
            assert(mid =~= before + own);
            assert(chains_view(out@) =~= out0 + chain_entries(nodes@.take(i + 1), prefix));
        }
        i = i + 1;
    }
    assert(nodes@.take(i as int) =~= nodes@);
}

/// Every Tab stop of the tree, in document order, each as its node chain
/// (leaf first).
pub fn focusable_nodes(root_nodes: &Vec<FocusNode>) -> (r: Vec<Vec<u64>>)
    ensures
        chains_view(r@) == focus_chains(root_nodes@),
{
    let mut out: Vec<Vec<u64>> = Vec::new();
    let mut chain: Vec<u64> = Vec::new();
    assert(chains_view(out@) =~= Seq::<Seq<u64>>::empty());
    collect_focusable(root_nodes, &mut chain, &mut out);
    assert(chains_view(out@) =~= focus_chains(root_nodes@));
    out
}


/// `list[j]` is a chain whose leaf is `leaf`.
pub open spec fn leaf_matches(list: Seq<Seq<u64>>, j: int, leaf: u64) -> bool {
    list[j].len() > 0 && list[j][0] == leaf
}

/// `j` is the first position of `list` whose leaf is `leaf`.
pub open spec fn first_leaf_match(list: Seq<Seq<u64>>, j: int, leaf: u64) -> bool {
    &&& 0 <= j < list.len()
    &&& leaf_matches(list, j, leaf)
    &&& forall|k: int| 0 <= k < j ==> !leaf_matches(list, k, leaf)
}

/// Position in the Tab order of the chain whose leaf is the leaf of `current`.
pub open spec fn tab_position(list: Seq<Seq<u64>>, current: Seq<u64>) -> Option<int> {
    if current.len() > 0 && exists|j: int| first_leaf_match(list, j, current[0]) {
        Some(choose|j: int| first_leaf_match(list, j, current[0]))
    } else {
        None
    }
}

/// Index of the Tab stop that navigation lands on; `None` when it leaves the
/// list without wrapping.
pub open spec fn tab_index(list: Seq<Seq<u64>>, current: Seq<u64>, forward: bool, wrap: bool) -> Option<int> {
    let n = list.len() as int;
    match tab_position(list, current) {
        Some(i) => if forward {
            if i + 1 < n {
                Some(i + 1)
            } else if wrap {
                Some(0)
            } else {
                None
            }
        } else {
            if i > 0 {
                Some(i - 1)
            } else if wrap {
                Some(n - 1)
            } else {
                None
            }
        },
        None => if forward {
            Some(0)
        } else if wrap {
            Some(n - 1)
        } else {
            Some(0)
        },
    }
}

/// Chain that Tab navigation focuses: empty when the tree has no Tab stop or
/// when navigation runs off either end without wrapping.
pub open spec fn tab_target(list: Seq<Seq<u64>>, current: Seq<u64>, forward: bool, wrap: bool) -> Seq<u64> {
    if list.len() == 0 {
        seq![]
    } else {
        match tab_index(list, current, forward, wrap) {
            Some(k) => list[k],
            None => seq![],
        }
    }
}

proof fn lemma_first_leaf_match_unique(list: Seq<Seq<u64>>, j: int, k: int, leaf: u64)
    requires
        first_leaf_match(list, j, leaf),
        first_leaf_match(list, k, leaf),
    ensures
        j == k,
{
    if j < k {
        assert(!leaf_matches(list, j, leaf));
    } else if k < j {
        assert(!leaf_matches(list, k, leaf));
    }
}

/// Tab navigation: moves focus from `current` to the next (`forward`) or
/// previous Tab stop of the tree, in document order. With `wrap` it goes round
/// from one end to the other; without, it returns an empty chain there. When
/// the focus is not in the tree, it starts at the first stop (or, backwards with
/// `wrap`, at the last). The result is a chain, leaf first.
pub fn tab_navigate(root_nodes: &Vec<FocusNode>, current: &Vec<u64>, forward: bool, wrap: bool) -> (r: FocusPath)
    ensures
        r@ == tab_target(focus_chains(root_nodes@), current@, forward, wrap),
{
    let list = focusable_nodes(root_nodes);
    let ghost l = focus_chains(root_nodes@);
    assert(forall|j: int| 0 <= j < list@.len() ==> #[trigger] list@[j]@ == l[j]);
    if list.len() == 0 {
        return Vec::new();
    }
    let n = list.len();
    let mut pos: Option<usize> = None;
    if current.len() > 0 {
        let leaf = current[0];
        let mut j: usize = 0;
        while j < n
            invariant_except_break
                pos is None,
            invariant
                n == list@.len(),
                j <= n,
                l == chains_view(list@),
                current@.len() > 0,
                leaf == current@[0],
                forall|k: int| 0 <= k < j ==> !leaf_matches(l, k, leaf),
            ensures
                pos matches Some(p) ==> first_leaf_match(l, p as int, leaf),
                pos is None ==> j == n,
            decreases n - j,
        {
            assert(list@[j as int]@ == l[j as int]);
            if list[j].len() > 0 && list[j][0] == leaf {
                pos = Some(j);
                assert(first_leaf_match(l, j as int, leaf));
                break;
            }
            j = j + 1;
        }
        proof {
            match pos {
                Some(p) => {
                    assert(first_leaf_match(l, p as int, leaf));
                    let c = choose|q: int| first_leaf_match(l, q, leaf);
                    lemma_first_leaf_match_unique(l, p as int, c, leaf);
                    assert(tab_position(l, current@) == Some(p as int));
                },
                None => {
                    assert(j == n);
                    assert(!exists|q: int| first_leaf_match(l, q, leaf));
                    assert(tab_position(l, current@) == None::<int>);
                },
            }
        }
    } else {
        assert(tab_position(l, current@) == None::<int>);
    }
    let next: usize = match pos {
        Some(i) => {
            if forward {
                if i + 1 < n {
                    i + 1
                } else if wrap {
                    0
                } else {
                    return Vec::new();
                }
            } else {
                if i > 0 {
                    i - 1
                } else if wrap {
                    n - 1
                } else {
                    return Vec::new();
                }
            }
        },
        None => {
            if forward {
                0
            } else if wrap {
                n - 1
            } else {
                0
            }
        },
    };
    assert(tab_index(l, current@, forward, wrap) == Some(next as int));
    copy_path(&list[next])
}


/// Every Tab stop in `list` carries a leaf identity of its own.
pub open spec fn distinct_leaves(list: Seq<Seq<u64>>) -> bool {
    &&& forall|j: int| 0 <= j < list.len() ==> #[trigger] list[j].len() > 0
    &&& forall|j: int, k: int|
        0 <= j < list.len() && 0 <= k < list.len() && j != k ==> #[trigger] list[j][0] != #[trigger] list[k][0]
}

proof fn lemma_tab_position_of_entry(list: Seq<Seq<u64>>, i: int)
    requires
        distinct_leaves(list),
        0 <= i < list.len(),
    ensures
        tab_position(list, list[i]) == Some(i),
{
    let leaf = list[i][0];
    assert forall|k: int| 0 <= k < i implies !leaf_matches(list, k, leaf) by {
        assert(list[k][0] != list[i][0]);
    }
    assert(first_leaf_match(list, i, leaf));
    let c = choose|q: int| first_leaf_match(list, q, leaf);
    lemma_first_leaf_match_unique(list, i, c, leaf);
}

/// Law: with wrapping, Tab navigation in a tree that has a Tab stop always
/// lands on one of its Tab stops, whatever the current focus.
pub proof fn law_tab_wrap_lands_on_stop(roots: Seq<FocusNode>, current: Seq<u64>, forward: bool)
    requires
        focus_chains(roots).len() > 0,
    ensures
        exists|k: int|
            0 <= k < focus_chains(roots).len() && tab_target(focus_chains(roots), current, forward, true)
                == #[trigger] focus_chains(roots)[k],
{
    let list = focus_chains(roots);
    match tab_position(list, current) {
        Some(i) => {
            assert(first_leaf_match(list, i, current[0]));
        },
        None => {},
    }
    let k = tab_index(list, current, forward, true).unwrap();
    assert(0 <= k < list.len());
    assert(tab_target(list, current, forward, true) == list[k]);
}

/// Law: when Tab stops have distinct leaf identities, Tab followed by
/// Shift+Tab (both wrapping) returns to the focused stop, and so does Shift+Tab
/// followed by Tab.
pub proof fn law_tab_round_trip(roots: Seq<FocusNode>, i: int)
    requires
        distinct_leaves(focus_chains(roots)),
        0 <= i < focus_chains(roots).len(),
    ensures
        tab_target(focus_chains(roots), tab_target(focus_chains(roots), focus_chains(roots)[i], true, true), false, true)
            == focus_chains(roots)[i],
        tab_target(focus_chains(roots), tab_target(focus_chains(roots), focus_chains(roots)[i], false, true), true, true)
            == focus_chains(roots)[i],
{
    let list = focus_chains(roots);
    let n = list.len() as int;
    lemma_tab_position_of_entry(list, i);
    let f = if i + 1 < n { i + 1 } else { 0 };
    assert(tab_target(list, list[i], true, true) == list[f]);
    lemma_tab_position_of_entry(list, f);
    let b = if i > 0 { i - 1 } else { n - 1 };
    assert(tab_target(list, list[i], false, true) == list[b]);
    lemma_tab_position_of_entry(list, b);
}

/// Law: from the Tab stop at position `i` (the first stop whose leaf is the
/// focused leaf), Tab lands on the stop at `i + 1` and Shift+Tab on the stop
/// at `i - 1` whenever that stop exists, with or without wrapping; wrapping
/// only matters at the ends.
pub proof fn law_tab_steps_to_neighbour(roots: Seq<FocusNode>, current: Seq<u64>, i: int, wrap: bool)
    requires
        current.len() > 0,
        first_leaf_match(focus_chains(roots), i, current[0]),
    ensures
        i + 1 < focus_chains(roots).len() ==> tab_target(focus_chains(roots), current, true, wrap)
            == focus_chains(roots)[i + 1],
        i > 0 ==> tab_target(focus_chains(roots), current, false, wrap) == focus_chains(roots)[i - 1],
{
    let list = focus_chains(roots);
    let j = choose|j: int| first_leaf_match(list, j, current[0]);
    lemma_first_leaf_match_unique(list, i, j, current[0]);
    assert(tab_position(list, current) == Some(i));
}

// ----- locating a chain in the current tree -----

/// Identities of the nodes reached by following the child indices `ix` from
/// the forest `nodes` (root first); it stops at the first index out of range.
pub open spec fn ids_along(nodes: Seq<FocusNode>, ix: Seq<int>) -> Seq<u64>
    decreases ix.len(),
{
    if ix.len() == 0 {
        seq![]
    } else if 0 <= ix[0] < nodes.len() {
        seq![nodes[ix[0]].identity] + ids_along(nodes[ix[0]].children@, ix.drop_first())
    } else {
        seq![]
    }
}

/// The depth-first search of the tree for the chain `path` (leaf first): at
/// `depth` the forest `nodes`, from sibling `k` on, must hold a node with
/// identity `path[len - 1 - depth]` under which the rest of the chain is found.
/// The first such node in document order wins; the result is the child-index
/// path (root first) of the rest of the match.
pub open spec fn find_from(nodes: Seq<FocusNode>, k: int, path: Seq<u64>, depth: int) -> Option<Seq<int>>
    decreases path.len() - depth, nodes.len() - k,
{
    if depth >= path.len() || depth < 0 {
        Some(seq![])
    } else if k >= nodes.len() || k < 0 {
        None
    } else if nodes[k].identity == path[path.len() - 1 - depth] && find_from(
        nodes[k].children@,
        0,
        path,
        depth + 1,
    ) is Some {
        Some(seq![k] + find_from(nodes[k].children@, 0, path, depth + 1).unwrap())
    } else {
        find_from(nodes, k + 1, path, depth)
    }
}

proof fn lemma_reverse_split(path: Seq<u64>, m: int)
    requires
        0 < m <= path.len(),
    ensures
        path.subrange(0, m).reverse() =~= seq![path[m - 1]] + path.subrange(0, m - 1).reverse(),
{
}

proof fn lemma_ids_along_cons(nodes: Seq<FocusNode>, ix: Seq<int>)
    requires
        ix.len() > 0,
        0 <= ix[0] < nodes.len(),
    ensures
        ids_along(nodes, ix) == seq![nodes[ix[0]].identity] + ids_along(
            nodes[ix[0]].children@,
            ix.drop_first(),
        ),
{
}

proof fn lemma_find_from_step(nodes: Seq<FocusNode>, k: int, path: Seq<u64>, depth: int)
    requires
        0 <= depth < path.len(),
        0 <= k < nodes.len(),
    ensures
        find_from(nodes, k, path, depth) == if nodes[k].identity == path[path.len() - 1 - depth]
            && find_from(nodes[k].children@, 0, path, depth + 1) is Some {
            Some(seq![k] + find_from(nodes[k].children@, 0, path, depth + 1).unwrap())
        } else {
            find_from(nodes, k + 1, path, depth)
        },
{
}

proof fn lemma_sound_hit(nodes: Seq<FocusNode>, k: int, path: Seq<u64>, depth: int, rest: Seq<int>)
    requires
        0 <= depth < path.len(),
        0 <= k < nodes.len(),
        nodes[k].identity == path[path.len() - 1 - depth],
        rest.len() == path.len() - depth - 1,
        ids_along(nodes[k].children@, rest) == path.subrange(0, path.len() - depth - 1).reverse(),
    ensures
        ids_along(nodes, seq![k] + rest) == path.subrange(0, path.len() - depth).reverse(),
{
    let r = seq![k] + rest;
    assert(r[0] == k);
    assert(r.drop_first() =~= rest);
    lemma_ids_along_cons(nodes, r);
    lemma_reverse_split(path, path.len() - depth);
}

proof fn lemma_find_from_sound(nodes: Seq<FocusNode>, k: int, path: Seq<u64>, depth: int)
    requires
        0 <= depth <= path.len(),
        0 <= k,
        find_from(nodes, k, path, depth) is Some,
    ensures
        find_from(nodes, k, path, depth).unwrap().len() == path.len() - depth,
        ids_along(nodes, find_from(nodes, k, path, depth).unwrap()) == path.subrange(0, path.len() - depth).reverse(),
    decreases path.len() - depth, nodes.len() - k,
{
    if depth >= path.len() {
        assert(find_from(nodes, k, path, depth).unwrap() =~= seq![]);
        assert(path.subrange(0, path.len() - depth).reverse() =~= seq![]);
    } else {
        assert(k < nodes.len());
        lemma_find_from_step(nodes, k, path, depth);
        let sub = find_from(nodes[k].children@, 0, path, depth + 1);
        if nodes[k].identity == path[path.len() - 1 - depth] && sub is Some {
            lemma_find_from_sound(nodes[k].children@, 0, path, depth + 1);
            lemma_sound_hit(nodes, k, path, depth, sub.unwrap());
        } else {
            lemma_find_from_sound(nodes, k + 1, path, depth);
        }
    }
}

proof fn lemma_find_from_complete(nodes: Seq<FocusNode>, k: int, path: Seq<u64>, depth: int, ix: Seq<int>)
    requires
        0 <= depth < path.len(),
        0 <= k,
        ix.len() == path.len() - depth,
        k <= ix[0] < nodes.len(),
        ids_along(nodes, ix) == path.subrange(0, path.len() - depth).reverse(),
    ensures
        find_from(nodes, k, path, depth) is Some,
    decreases path.len() - depth, nodes.len() - k,
{
    let want = path.subrange(0, path.len() - depth).reverse();
    assert(ids_along(nodes, ix)[0] == nodes[ix[0]].identity);
    assert(want[0] == path[path.len() - 1 - depth]);
    if nodes[k].identity == path[path.len() - 1 - depth] && find_from(
        nodes[k].children@,
        0,
        path,
        depth + 1,
    ) is Some {
    } else if k == ix[0] {
        let rest = ix.drop_first();
        if depth + 1 < path.len() {
            let tail = path.subrange(0, path.len() - depth - 1).reverse();
            lemma_reverse_split(path, path.len() - depth);
            lemma_ids_along_cons(nodes, ix);
            let got = ids_along(nodes[k].children@, rest);
            assert(want == seq![path[path.len() - 1 - depth]] + tail);
            assert(want == seq![nodes[k].identity] + got);
            assert(want.drop_first() =~= tail);
            assert(want.drop_first() =~= got);
            assert(rest.len() > 0);
            if rest[0] >= nodes[k].children@.len() {
                assert(ids_along(nodes[k].children@, rest) =~= seq![]);
                assert(tail.len() > 0);
            }
            lemma_find_from_complete(nodes[k].children@, 0, path, depth + 1, rest);
        }
    } else {
        lemma_find_from_complete(nodes, k + 1, path, depth, ix);
    }
}

/// Depth-first search for `path` from `depth` on (see [`find_from`]); on
/// success the child indices of the match are appended to `matches`, root
/// first, otherwise `matches` is left as it was.
fn find_path(nodes: &Vec<FocusNode>, path: &Vec<u64>, depth: usize, matches: &mut Vec<usize>) -> (found: bool)
    requires
        depth <= path@.len(),
    ensures
        found == find_from(nodes@, 0, path@, depth as int) is Some,
        found ==> index_view(final(matches)@) == index_view(old(matches)@) + find_from(nodes@, 0, path@, depth as int).unwrap(),
        !found ==> final(matches)@ == old(matches)@,
    decreases path@.len() - depth,
{
    if depth >= path.len() {
        assert(index_view(old(matches)@) + seq![] =~= index_view(old(matches)@));
        return true;
    }
    let want = path[path.len() - 1 - depth];
    let mut k: usize = 0;
    while k < nodes.len()
        invariant
            k <= nodes.len(),
            depth < path.len(),
            depth < path@.len(),
            want == path@[path@.len() - 1 - depth],
            matches@ == old(matches)@,
            find_from(nodes@, 0, path@, depth as int) == find_from(nodes@, k as int, path@, depth as int),
        decreases nodes.len() - k,
    {
        let node = &nodes[k];
        if node.identity == want {
            matches.push(k);
            if find_path(&node.children, path, depth + 1, matches) {
                let ghost rest = find_from(nodes@[k as int].children@, 0, path@, depth + 1);
                assert(index_view(matches@) =~= index_view(old(matches)@) + (seq![k as int] + rest.unwrap()));
                return true;
            }
            matches.pop();
            assert(matches@ =~= old(matches)@);
        }
        k = k + 1;
    }
    false
}

/// Locates the chain `path` (leaf first) in the current tree. Returns the
/// child-index path (root first) of the first match in document order, or
/// `None` when the chain is empty or names no path of the tree.
pub fn locate(path: &Vec<u64>, root_nodes: &Vec<FocusNode>) -> (r: Option<Vec<usize>>)
    ensures
        path@.len() == 0 ==> r is None,
        path@.len() > 0 ==> (r is Some <==> find_from(root_nodes@, 0, path@, 0) is Some),
        r matches Some(ix) ==> index_view(ix@) == find_from(root_nodes@, 0, path@, 0).unwrap(),
{
    if path.len() == 0 {
        return None;
    }
    let mut matches: Vec<usize> = Vec::new();
    if find_path(root_nodes, path, 0, &mut matches) {
        assert(index_view(matches@) =~= find_from(root_nodes@, 0, path@, 0).unwrap());
        Some(matches)
    } else {
        None
    }
}

/// Law: a chain that `locate` finds names exactly the nodes on the returned
/// index path: the identities along it, root first, are the chain reversed.
pub proof fn law_locate_sound(path: Seq<u64>, roots: Seq<FocusNode>)
    requires
        path.len() > 0,
        find_from(roots, 0, path, 0) is Some,
    ensures
        find_from(roots, 0, path, 0).unwrap().len() == path.len(),
        ids_along(roots, find_from(roots, 0, path, 0).unwrap()) == path.reverse(),
{
    lemma_find_from_sound(roots, 0, path, 0);
    assert(path.subrange(0, path.len() as int) =~= path);
}

/// Law: `locate` finds every chain that names a path of the tree: if some
/// child-index path leads through nodes whose identities, root first, are the
/// chain reversed, the search succeeds.
pub proof fn law_locate_complete(path: Seq<u64>, roots: Seq<FocusNode>, ix: Seq<int>)
    requires
        path.len() > 0,
        ix.len() == path.len(),
        ids_along(roots, ix) == path.reverse(),
    ensures
        find_from(roots, 0, path, 0) is Some,
{
    assert(path.subrange(0, path.len() as int) =~= path);
    if ix[0] >= roots.len() {
        assert(ids_along(roots, ix) =~= seq![]);
        assert(path.reverse().len() > 0);
    }
    lemma_find_from_complete(roots, 0, path, 0, ix);
}


/// Every Tab stop of a forest lies at the end of a child-index path: its
/// chain is the identities along that path, reversed, followed by `prefix`.
proof fn lemma_entry_path(nodes: Seq<FocusNode>, prefix: Seq<u64>, j: int) -> (ix: Seq<int>)
    requires
        0 <= j < chain_entries(nodes, prefix).len(),
    ensures
        ix.len() >= 1,
        ids_along(nodes, ix).len() == ix.len(),
        chain_entries(nodes, prefix)[j] == ids_along(nodes, ix).reverse() + prefix,
    decreases nodes,
{
    let n = nodes[0];
    let p = seq![n.identity] + prefix;
    let own: Seq<Seq<u64>> = if tab_stop(n) { seq![p] } else { seq![] };
    let kids = chain_entries(n.children@, p);
    let rest = chain_entries(nodes.drop_first(), prefix);
    assert(chain_entries(nodes, prefix) == own + kids + rest);
    assert(decreases_to!(nodes => nodes[0]));
    assert(decreases_to!(n => n.children));
    assert(decreases_to!(n.children => n.children@));
    vstd::seq::axiom_seq_len_decreases(nodes, nodes.drop_first());
    if j < own.len() {
        let ix = seq![0int];
        assert(ix.drop_first() =~= Seq::<int>::empty());
        lemma_ids_along_cons(nodes, ix);
        assert(ids_along(n.children@, Seq::<int>::empty()) == Seq::<u64>::empty());
        assert(ids_along(nodes, ix) =~= seq![n.identity]);
        assert(ids_along(nodes, ix).reverse() + prefix =~= p);
        ix
    } else if j < own.len() + kids.len() {
        let ix1 = lemma_entry_path(n.children@, p, j - own.len());
        let ix = seq![0int] + ix1;
        assert(ix.drop_first() =~= ix1);
        let got = ids_along(n.children@, ix1);
        assert(ids_along(nodes, ix) == seq![n.identity] + got);
        assert((seq![n.identity] + got).reverse() + prefix =~= got.reverse() + p);
        ix
    } else {
        let ix1 = lemma_entry_path(nodes.drop_first(), prefix, j - own.len() - kids.len());
        let ix = seq![ix1[0] + 1] + ix1.drop_first();
        assert(ix.drop_first() =~= ix1.drop_first());
        assert(nodes.drop_first()[ix1[0]] == nodes[ix1[0] + 1]);
        assert(ids_along(nodes, ix) == ids_along(nodes.drop_first(), ix1));
        ix
    }
}

/// Law: every focus chain that Tab navigation can land on is found again by
/// `locate` in the same tree, so the focused node keeps receiving keys.
pub proof fn law_tab_stops_locatable(roots: Seq<FocusNode>, j: int)
    requires
        0 <= j < focus_chains(roots).len(),
    ensures
        find_from(roots, 0, focus_chains(roots)[j], 0) is Some,
{
    let e = focus_chains(roots)[j];
    let ix = lemma_entry_path(roots, seq![], j);
    let ids = ids_along(roots, ix);
    assert(ids.reverse() + Seq::<u64>::empty() =~= ids.reverse());
    assert(e.reverse() =~= ids.reverse().reverse());
    assert(ids.reverse().reverse() =~= ids);
    law_locate_complete(e, roots, ix);
}

// ----- the focus state -----

/// Identities of a chain of nodes, in the chain's order.
pub open spec fn chain_ids(chain: Seq<FocusNode>) -> Seq<u64> {
    chain.map_values(|n: FocusNode| n.identity)
}

/// `i` is the first focusable node of `chain`.
pub open spec fn first_focusable(chain: Seq<FocusNode>, i: int) -> bool {
    &&& 0 <= i < chain.len()
    &&& chain[i].focusable
    &&& forall|k: int| 0 <= k < i ==> !(#[trigger] chain[k]).focusable
}

/// Focus that a click on the hit chain `chain` (deepest node first) gives:
/// the chain from its first focusable node up, or no focus at all.
pub open spec fn click_focus(chain: Seq<FocusNode>) -> Seq<u64> {
    if exists|i: int| first_focusable(chain, i) {
        chain_ids(chain.skip(choose|i: int| first_focusable(chain, i)))
    } else {
        seq![]
    }
}

/// Current focus, held by the engine as an identity chain (leaf first); an
/// empty chain means no focus.
pub struct FocusManager {
    path: FocusPath,
}

impl View for FocusManager {
    type V = Seq<u64>;

    closed spec fn view(&self) -> Seq<u64> {
        self.path@
    }
}

impl Default for FocusManager {
    fn default() -> (r: Self)
        ensures
            r@ == Seq::<u64>::empty(),
    {
        FocusManager { path: Vec::new() }
    }
}

impl FocusManager {
    /// The focus chain, leaf first.
    pub fn path(&self) -> (r: &FocusPath)
        ensures
            r@ == self@,
    {
        &self.path
    }

    /// Whether some node has the focus.
    pub fn has_focus(&self) -> (r: bool)
        ensures
            r == (self@.len() > 0),
    {
        self.path.len() > 0
    }

    /// Moves the focus to `path` (leaf first); an empty chain clears it.
    pub fn set_focus(&mut self, path: FocusPath)
        ensures
            final(self)@ == path@,
    {
        self.path = path;
    }

    /// Clears the focus.
    pub fn clear_focus(&mut self)
        ensures
            final(self)@ == Seq::<u64>::empty(),
    {
        self.path.clear();
    }

    /// Focus after a press on the hit chain `hit_chain` (deepest node first):
    /// the deepest focusable node of the chain takes the focus, with its chain
    /// up to the root; with no focusable node the focus is cleared.
    pub fn focus_on_click(&mut self, hit_chain: &[FocusNode])
        ensures
            final(self)@ == click_focus(hit_chain@),
    {
        let mut idx: usize = 0;
        while idx < hit_chain.len()
            invariant
                idx <= hit_chain@.len(),
                forall|k: int| 0 <= k < idx ==> !(#[trigger] hit_chain@[k]).focusable,
            ensures
                idx < hit_chain@.len() ==> hit_chain@[idx as int].focusable,
            decreases hit_chain.len() - idx,
        {
            if hit_chain[idx].focusable {
                break;
            }
            idx = idx + 1;
        }
        if idx < hit_chain.len() {
            let ghost chain = hit_chain@;
            assert(first_focusable(chain, idx as int));
            let mut path: Vec<u64> = Vec::new();
            let mut j: usize = idx;
            while j < hit_chain.len()
                invariant
                    idx <= j <= hit_chain@.len(),
                    chain == hit_chain@,
                    path@ =~= chain_ids(chain.subrange(idx as int, j as int)),
                decreases hit_chain.len() - j,
            {
                path.push(hit_chain[j].identity);
                j = j + 1;
                assert(path@ =~= chain_ids(chain.subrange(idx as int, j as int)));
            }
            proof {
                let c = choose|i: int| first_focusable(chain, i);
                if c < idx {
                    assert(!chain[c].focusable);
                } else if c > idx {
                    assert(!chain[idx as int].focusable);
                }
                assert(chain.subrange(idx as int, j as int) =~= chain.skip(idx as int));
            }
            self.set_focus(path);
        } else {
            assert(!exists|i: int| first_focusable(hit_chain@, i));
            self.clear_focus();
        }
    }
}

} // verus!
