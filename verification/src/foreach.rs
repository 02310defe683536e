//! Keyed list rendering: which holders of the previous round a new list of
//! keys takes over, which items need a new holder (whose children are then
//! built once), and which old holders are destroyed.
//!
//! Holders are pooled by key; an item takes the holder of its key that was
//! pooled last (so the first item of a key gets the last holder of that key,
//! the second the one before it, and so on). Holders left in the pool are
//! destroyed.
use vstd::prelude::*;

verus! {

/// How many times `k` occurs in `s`.
pub open spec fn count_in(s: Seq<u64>, k: u64) -> nat
    decreases s.len(),
{
    if s.len() == 0 {
        0
    } else {
        (if s[0] == k { 1nat } else { 0nat }) + count_in(s.skip(1), k)
    }
}

/// How many later holders share the key of holder `j`.
pub open spec fn count_after(prev: Seq<u64>, j: int) -> nat {
    count_in(prev.skip(j + 1), prev[j])
}

/// How many earlier items share the key of item `i`.
pub open spec fn occurrence(keys: Seq<u64>, i: int) -> nat {
    count_in(keys.take(i), keys[i])
}

/// Item `i` takes over holder `j`: same key, and `j` is the holder of that
/// key with as many holders of the key after it as there are items of the
/// key before `i`.
pub open spec fn reuses(prev: Seq<u64>, keys: Seq<u64>, i: int, j: int) -> bool {
    &&& 0 <= j < prev.len()
    &&& prev[j] == keys[i]
    &&& count_after(prev, j) == occurrence(keys, i)
}

/// Where item `i` of the new round gets its holder.
#[derive(Copy, Clone, Debug, PartialEq, Eq, Structural)]
pub enum EachSlot {
    /// The holder at this index of the previous round.
    Reused(usize),
    /// A new holder, whose children are built now.
    Fresh,
}

/// The holder of item `i`: an old one while the previous round still has
/// holders of the key left, a new one after that.
pub open spec fn each_slot(prev: Seq<u64>, keys: Seq<u64>, i: int) -> EachSlot {
    if occurrence(keys, i) < count_in(prev, keys[i]) {
        EachSlot::Reused((choose|j: int| reuses(prev, keys, i, j)) as usize)
    } else {
        EachSlot::Fresh
    }
}

/// Holder `j` of the previous round is taken by no item: the new round has no
/// more items of its key than there are holders of the key after it.
pub open spec fn is_stale(prev: Seq<u64>, keys: Seq<u64>, j: int) -> bool {
    count_after(prev, j) >= count_in(keys, prev[j])
}

/// The outcome of one round.
pub struct ForEachPlan {
    /// One slot per item, in order.
    pub active: Vec<EachSlot>,
    /// The indices of the old holders to destroy, in increasing order.
    pub stale: Vec<usize>,
}

proof fn lemma_count_skip_step(s: Seq<u64>, k: u64, j: int)
    requires
        0 <= j < s.len(),
    ensures
        count_in(s.skip(j), k) == (if s[j] == k { 1nat } else { 0nat }) + count_in(s.skip(j + 1), k),
{
    assert(s.skip(j).skip(1) =~= s.skip(j + 1));
}

proof fn lemma_count_skip_zero(s: Seq<u64>, k: u64)
    ensures
        count_in(s.skip(0), k) == count_in(s, k),
{
    assert(s.skip(0) =~= s);
}

proof fn lemma_count_push(s: Seq<u64>, x: u64, k: u64)
    ensures
        count_in(s.push(x), k) == count_in(s, k) + (if x == k { 1nat } else { 0nat }),
    decreases s.len(),
{
    let sx = s.push(x);
    assert(sx[0] == (if s.len() == 0 { x } else { s[0] }));
    if s.len() == 0 {
        assert(sx.skip(1) =~= Seq::<u64>::empty());
        assert(count_in(Seq::<u64>::empty(), k) == 0);
    } else {
        assert(sx.skip(1) =~= s.skip(1).push(x));
        lemma_count_push(s.skip(1), x, k);
    }
}

proof fn lemma_count_take_step(s: Seq<u64>, k: u64, i: int)
    requires
        0 <= i < s.len(),
    ensures
        count_in(s.take(i + 1), k) == count_in(s.take(i), k) + (if s[i] == k { 1nat } else { 0nat }),
{
    assert(s.take(i + 1) =~= s.take(i).push(s[i]));
    lemma_count_push(s.take(i), s[i], k);
}

/// Counting over a shorter suffix gives no more.
proof fn lemma_count_skip_mono(s: Seq<u64>, k: u64, a: int, b: int)
    requires
        0 <= a <= b <= s.len(),
    ensures
        count_in(s.skip(a), k) >= count_in(s.skip(b), k),
    decreases b - a,
{
    if a < b {
        lemma_count_skip_step(s, k, a);
        lemma_count_skip_mono(s, k, a + 1, b);
    }
}

/// Counting over a shorter prefix gives no more.
proof fn lemma_count_take_mono(s: Seq<u64>, k: u64, a: int, b: int)
    requires
        0 <= a <= b <= s.len(),
    ensures
        count_in(s.take(a), k) <= count_in(s.take(b), k),
    decreases b - a,
{
    if a < b {
        lemma_count_take_step(s, k, b - 1);
        lemma_count_take_mono(s, k, a, b - 1);
    }
}

proof fn lemma_count_take_all(s: Seq<u64>, k: u64)
    ensures
        count_in(s.take(s.len() as int), k) == count_in(s, k),
{
    assert(s.take(s.len() as int) =~= s);
}

/// Of two holders with one key, the earlier has more holders of the key after it.
proof fn lemma_after_strict(s: Seq<u64>, a: int, b: int)
    requires
        0 <= a < b < s.len(),
        s[a] == s[b],
    ensures
        count_after(s, a) >= count_after(s, b) + 1,
{
    lemma_count_skip_mono(s, s[b], a + 1, b);
    lemma_count_skip_step(s, s[b], b);
}

/// A holder has fewer holders of its key after it than there are in all.
proof fn lemma_after_below_total(s: Seq<u64>, j: int)
    requires
        0 <= j < s.len(),
    ensures
        count_after(s, j) + 1 <= count_in(s, s[j]),
{
    lemma_count_skip_mono(s, s[j], 0, j);
    lemma_count_skip_step(s, s[j], j);
    lemma_count_skip_zero(s, s[j]);
}

/// A suffix holding `k` has a first `k`, with one fewer `k` after it.
proof fn lemma_first_in_suffix(s: Seq<u64>, k: u64, a: int) -> (m: int)
    requires
        0 <= a <= s.len(),
        count_in(s.skip(a), k) > 0,
    ensures
        a <= m < s.len(),
        s[m] == k,
        count_after(s, m) + 1 == count_in(s.skip(a), k),
    decreases s.len() - a,
{
    if a == s.len() {
        assert(s.skip(a) =~= Seq::<u64>::empty());
        0
    } else {
        lemma_count_skip_step(s, k, a);
        if s[a] == k {
            a
        } else {
            lemma_first_in_suffix(s, k, a + 1)
        }
    }
}

/// Below the count of `k` in `s`, each number is the count of `k` before some `k`.
proof fn lemma_nth_in_prefix(s: Seq<u64>, k: u64, t: nat) -> (i: int)
    requires
        t < count_in(s, k),
    ensures
        0 <= i < s.len(),
        s[i] == k,
        count_in(s.take(i), k) == t,
    decreases s.len(),
{
    if s.len() == 0 {
        0
    } else {
        let d = s.drop_last();
        assert(s =~= d.push(s.last()));
        lemma_count_push(d, s.last(), k);
        if t < count_in(d, k) {
            let i = lemma_nth_in_prefix(d, k, t);
            assert(d.take(i) =~= s.take(i));
            i
        } else {
            assert(s.take(s.len() - 1) =~= d);
            s.len() - 1
        }
    }
}

proof fn lemma_count_absent(s: Seq<u64>, k: u64)
    requires
        forall|m: int| 0 <= m < s.len() ==> s[m] != k,
    ensures
        count_in(s, k) == 0,
    decreases s.len(),
{
    if s.len() > 0 {
        lemma_count_absent(s.skip(1), k);
    }
}

/// At most one holder is taken over by an item.
proof fn lemma_reuses_unique(prev: Seq<u64>, keys: Seq<u64>, i: int, j1: int, j2: int)
    requires
        reuses(prev, keys, i, j1),
        reuses(prev, keys, i, j2),
    ensures
        j1 == j2,
{
    if j1 < j2 {
        lemma_after_strict(prev, j1, j2);
    } else if j2 < j1 {
        lemma_after_strict(prev, j2, j1);
    }
}

/// The slot of an item that takes over holder `j`.
proof fn lemma_slot_reused(prev: Seq<u64>, keys: Seq<u64>, i: int, j: int)
    requires
        0 <= i < keys.len(),
        reuses(prev, keys, i, j),
    ensures
        each_slot(prev, keys, i) == EachSlot::Reused(j as usize),
{
    lemma_after_below_total(prev, j);
    let c = choose|c: int| reuses(prev, keys, i, c);
    lemma_reuses_unique(prev, keys, i, c, j);
}

/// Below the number of holders of `k` after `a`, each number counts the
/// holders of `k` after some holder of `k`.
proof fn lemma_nth_from_end(s: Seq<u64>, k: u64, t: nat, a: int) -> (m: int)
    requires
        0 <= a <= s.len(),
        t < count_in(s.skip(a), k),
    ensures
        a <= m < s.len(),
        s[m] == k,
        count_after(s, m) == t,
    decreases s.len() - a,
{
    let m0 = lemma_first_in_suffix(s, k, a);
    if count_after(s, m0) == t {
        m0
    } else {
        lemma_nth_from_end(s, k, t, m0 + 1)
    }
}

/// An item with holders of its key still left has a holder to take over.
proof fn lemma_reuse_witness(prev: Seq<u64>, keys: Seq<u64>, i: int) -> (j: int)
    requires
        0 <= i < keys.len(),
        each_slot(prev, keys, i) is Reused,
    ensures
        reuses(prev, keys, i, j),
{
    lemma_count_skip_zero(prev, keys[i]);
    lemma_nth_from_end(prev, keys[i], occurrence(keys, i), 0)
}

/// The last index below `prev.len()` whose key is `k` and which is not yet used.
fn find_last_unused(prev: &[u64], used: &Vec<bool>, k: u64) -> (r: Option<usize>)
    requires
        used@.len() == prev@.len(),
    ensures
        match r {
            Some(f) => {
                &&& f < prev@.len()
                &&& prev@[f as int] == k
                &&& !used@[f as int]
                &&& forall|m: int| f < m < prev@.len() && prev@[m] == k ==> used@[m]
            },
            None => forall|m: int| 0 <= m < prev@.len() && prev@[m] == k ==> used@[m],
        },
{
    let mut j = prev.len();
    while j > 0
        invariant
            j <= prev@.len(),
            used@.len() == prev@.len(),
            forall|m: int| j <= m < prev@.len() && prev@[m] == k ==> used@[m],
        decreases j,
    {
        j = j - 1;
        if prev[j] == k && !used[j] {
            return Some(j);
        }
    }
    None
}

/// Plans one round of a keyed list: `prev` are the keys of the holders of
/// the previous round, `keys` those of the new items, in order.
pub fn plan_for_each(prev: &[u64], keys: &[u64]) -> (p: ForEachPlan)
    ensures
        p.active@.len() == keys@.len(),
        forall|i: int| 0 <= i < keys@.len() ==> p.active@[i] == each_slot(prev@, keys@, i),
        forall|a: int, b: int| 0 <= a < b < p.stale@.len() ==> p.stale@[a] < p.stale@[b],
        forall|a: int|
            0 <= a < p.stale@.len() ==> p.stale@[a] < prev@.len() && is_stale(
                prev@,
                keys@,
                p.stale@[a] as int,
            ),
        forall|j: int|
            0 <= j < prev@.len() && is_stale(prev@, keys@, j) ==> p.stale@.contains(j as usize),
{
    let n = prev.len();
    let mut used: Vec<bool> = Vec::new();
    let mut q: usize = 0;
    while q < n
        invariant
            q <= n,
            n == prev@.len(),
            used@.len() == q,
            forall|j: int| 0 <= j < q ==> !used@[j],
        decreases n - q,
    {
        used.push(false);
        q = q + 1;
    }
    assert(keys@.take(0) =~= Seq::<u64>::empty());

    let mut active: Vec<EachSlot> = Vec::new();
    let mut i: usize = 0;
    while i < keys.len()
        invariant
            i <= keys@.len(),
            n == prev@.len(),
            used@.len() == n,
            active@.len() == i,
            forall|a: int| 0 <= a < i ==> active@[a] == each_slot(prev@, keys@, a),
            forall|j: int|
                0 <= j < n ==> used@[j] == (count_after(prev@, j) < count_in(
                    keys@.take(i as int),
                    prev@[j],
                )),
        decreases keys@.len() - i,
    {
        let k = keys[i];
        let ghost t = count_in(keys@.take(i as int), k);
        let ghost old_used = used@;
        let found = find_last_unused(prev, &used, k);
        proof {
            assert forall|j: int| 0 <= j < n implies count_in(keys@.take(i + 1), prev@[j])
                == count_in(keys@.take(i as int), prev@[j]) + (if prev@[j] == k { 1nat } else { 0nat }) by {
                lemma_count_take_step(keys@, prev@[j], i as int);
            }
        }
        match found {
            Some(f) => {
                proof {
                    if count_after(prev@, f as int) > 0 {
                        let m = lemma_first_in_suffix(prev@, k, f + 1);
                    }
                    assert(count_after(prev@, f as int) == t);
                    assert(reuses(prev@, keys@, i as int, f as int));
                    lemma_slot_reused(prev@, keys@, i as int, f as int);
                }
                used.set(f, true);
                active.push(EachSlot::Reused(f));
                proof {
                    assert forall|j: int| 0 <= j < n implies used@[j] == (count_after(prev@, j) < count_in(
                        keys@.take(i + 1),
                        prev@[j],
                    )) by {
                        if prev@[j] == k && j != f {
                            if j < f {
                                lemma_after_strict(prev@, j, f as int);
                            }
                        }
                    }
                }
            },
            None => {
                proof {
                    if count_in(prev@, k) > 0 {
                        lemma_count_skip_zero(prev@, k);
                        let m = lemma_first_in_suffix(prev@, k, 0);
                    }
                    assert(count_in(prev@, k) <= t);
                }
                active.push(EachSlot::Fresh);
                proof {
                    assert forall|j: int| 0 <= j < n implies used@[j] == (count_after(prev@, j) < count_in(
                        keys@.take(i + 1),
                        prev@[j],
                    )) by {
                        if prev@[j] == k {
                            lemma_after_below_total(prev@, j);
                        }
                    }
                }
            },
        }
        i = i + 1;
    }
    proof {
        assert forall|j: int| 0 <= j < n implies used@[j] == !is_stale(prev@, keys@, j) by {
            lemma_count_take_all(keys@, prev@[j]);
        }
    }

    let mut stale: Vec<usize> = Vec::new();
    let mut j: usize = 0;
    while j < n
        invariant
            j <= n,
            n == prev@.len(),
            used@.len() == n,
            forall|m: int| 0 <= m < n ==> used@[m] == !is_stale(prev@, keys@, m),
            forall|a: int, b: int| 0 <= a < b < stale@.len() ==> stale@[a] < stale@[b],
            forall|a: int|
                0 <= a < stale@.len() ==> stale@[a] < j && is_stale(prev@, keys@, stale@[a] as int),
            forall|m: int|
                0 <= m < j && is_stale(prev@, keys@, m) ==> stale@.contains(m as usize),
        decreases n - j,
    {
        let ghost old_stale = stale@;
        if !used[j] {
            stale.push(j);
            proof {
                assert(stale@[stale@.len() - 1] == j);
            }
        }
        proof {
            assert forall|m: int| 0 <= m < j + 1 && is_stale(prev@, keys@, m) implies stale@.contains(
                m as usize,
            ) by {
                if m == j {
                    assert(stale@[stale@.len() - 1] == j);
                } else {
                    let idx = choose|idx: int| 0 <= idx < old_stale.len() && old_stale[idx] == m as usize;
                    assert(stale@[idx] == m as usize);
                }
            }
        }
        j = j + 1;
    }
    ForEachPlan { active, stale }
}

/// Law: rendering again the keys of the previous round, none of them twice,
/// keeps every holder where it was and destroys none.
pub proof fn law_same_keys_reuse_in_place(keys: Seq<u64>)
    requires
        forall|a: int, b: int| 0 <= a < b < keys.len() ==> keys[a] != keys[b],
    ensures
        forall|i: int| 0 <= i < keys.len() ==> each_slot(keys, keys, i) == EachSlot::Reused(i as usize),
        forall|j: int| 0 <= j < keys.len() ==> !is_stale(keys, keys, j),
{
    assert forall|i: int| 0 <= i < keys.len() implies count_after(keys, i) == 0 && occurrence(keys, i)
        == 0 by {
        lemma_count_absent(keys.skip(i + 1), keys[i]);
        lemma_count_absent(keys.take(i), keys[i]);
    }
    assert forall|i: int| 0 <= i < keys.len() implies each_slot(keys, keys, i) == EachSlot::Reused(
        i as usize,
    ) by {
        assert(reuses(keys, keys, i, i));
        lemma_slot_reused(keys, keys, i, i);
    }
    assert forall|j: int| 0 <= j < keys.len() implies !is_stale(keys, keys, j) by {
        lemma_after_below_total(keys, j);
    }
}

/// Law: no old holder is taken over by two items.
pub proof fn law_reused_at_most_once(prev: Seq<u64>, keys: Seq<u64>, i1: int, i2: int)
    requires
        prev.len() <= usize::MAX,
        0 <= i1 < keys.len(),
        0 <= i2 < keys.len(),
        each_slot(prev, keys, i1) is Reused,
        each_slot(prev, keys, i1) == each_slot(prev, keys, i2),
    ensures
        i1 == i2,
{
    let j1 = lemma_reuse_witness(prev, keys, i1);
    lemma_slot_reused(prev, keys, i1, j1);
    let j2 = lemma_reuse_witness(prev, keys, i2);
    lemma_slot_reused(prev, keys, i2, j2);
    assert(j1 == j2);
    let k = keys[i1];
    if i1 < i2 {
        lemma_count_take_step(keys, k, i1);
        lemma_count_take_mono(keys, k, i1 + 1, i2);
    } else if i2 < i1 {
        lemma_count_take_step(keys, k, i2);
        lemma_count_take_mono(keys, k, i2 + 1, i1);
    }
}

/// Law: each old holder is either taken over by an item of the new round or
/// destroyed, never both.
pub proof fn law_reused_or_stale(prev: Seq<u64>, keys: Seq<u64>, j: int)
    requires
        prev.len() <= usize::MAX,
        0 <= j < prev.len(),
    ensures
        is_stale(prev, keys, j) <==> !(exists|i: int|
            0 <= i < keys.len() && #[trigger] each_slot(prev, keys, i) == EachSlot::Reused(j as usize)),
{
    let k = prev[j];
    if is_stale(prev, keys, j) {
        assert forall|i: int| 0 <= i < keys.len() implies #[trigger] each_slot(prev, keys, i)
            != EachSlot::Reused(j as usize) by {
            if each_slot(prev, keys, i) == EachSlot::Reused(j as usize) {
                let c = lemma_reuse_witness(prev, keys, i);
                lemma_slot_reused(prev, keys, i, c);
                assert(c == j);
                lemma_count_take_step(keys, k, i);
                lemma_count_take_mono(keys, k, i + 1, keys.len() as int);
                lemma_count_take_all(keys, k);
            }
        }
    } else {
        let i = lemma_nth_in_prefix(keys, k, count_after(prev, j));
        lemma_slot_reused(prev, keys, i, j);
        assert(each_slot(prev, keys, i) == EachSlot::Reused(j as usize));
    }
}

} // verus!
