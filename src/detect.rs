//! Safety check over one id-space of the resource ledger (Banker's-style):
//! can every task be run to completion in some order, each one only needing
//! what is free once the tasks before it have released what they hold?
use vstd::prelude::*;
use crate::ledger::{ClassRow, rows_sized};

verus! {

/// What each task holds, per id.
pub open spec fn allocs(rows: Seq<ClassRow>) -> Seq<Seq<usize>> {
    rows.map_values(|r: ClassRow| r.alloc@)
}

/// What each task requests, per id.
pub open spec fn needs(rows: Seq<ClassRow>) -> Seq<Seq<usize>> {
    rows.map_values(|r: ClassRow| r.need@)
}

/// Units of id `j` held by the first `k` tasks among those that `mask` marks.
pub open spec fn gain(alloc: Seq<Seq<usize>>, mask: Seq<bool>, j: int, k: nat) -> int
    decreases k,
{
    if k == 0 {
        0
    } else {
        gain(alloc, mask, j, (k - 1) as nat) + if mask[k - 1] {
            alloc[k - 1][j] as int
        } else {
            0
        }
    }
}

/// Units of id `j` that are free once the tasks marked in `mask` have
/// finished and released everything they hold.
pub open spec fn pool(avail: Seq<usize>, alloc: Seq<Seq<usize>>, mask: Seq<bool>, j: int) -> int {
    avail[j] + gain(alloc, mask, j, alloc.len())
}

/// Task `i` could run to completion once the tasks marked in `mask` have
/// finished: every unit it requests is in the pool.
pub open spec fn can_run(avail: Seq<usize>, alloc: Seq<Seq<usize>>, need: Seq<Seq<usize>>, mask: Seq<bool>, i: int) -> bool {
    forall|j: int| 0 <= j < avail.len() ==> need[i][j] <= #[trigger] pool(avail, alloc, mask, j)
}

/// The tasks among the first `n` that occur in `s`.
pub open spec fn mask_of(s: Seq<int>, n: nat) -> Seq<bool> {
    Seq::new(n, |i: int| s.contains(i))
}

/// `s` lists every task, and each task in `s` can run once those before it
/// in `s` have finished.
pub open spec fn safe_sequence(avail: Seq<usize>, alloc: Seq<Seq<usize>>, need: Seq<Seq<usize>>, s: Seq<int>) -> bool {
    &&& forall|i: int| 0 <= i < alloc.len() ==> #[trigger] s.contains(i)
    &&& forall|k: int|
        0 <= k < s.len() ==> 0 <= #[trigger] s[k] < alloc.len() && can_run(
            avail,
            alloc,
            need,
            mask_of(s.take(k), alloc.len()),
            s[k],
        )
}

/// No order lets all tasks run to completion.
pub open spec fn deadlocked(avail: Seq<usize>, alloc: Seq<Seq<usize>>, need: Seq<Seq<usize>>) -> bool {
    !exists|s: Seq<int>| safe_sequence(avail, alloc, need, s)
}

/// Number of tasks marked in `mask`.
pub open spec fn done_count(mask: Seq<bool>) -> nat
    decreases mask.len(),
{
    if mask.len() == 0 {
        0
    } else {
        done_count(mask.drop_last()) + if mask.last() {
            1nat
        } else {
            0nat
        }
    }
}

proof fn lemma_done_count_bound(mask: Seq<bool>)
    ensures
        done_count(mask) <= mask.len(),
    decreases mask.len(),
{
    if mask.len() > 0 {
        lemma_done_count_bound(mask.drop_last());
    }
}

proof fn lemma_done_count_set(mask: Seq<bool>, i: int)
    requires
        0 <= i < mask.len(),
        !mask[i],
    ensures
        done_count(mask.update(i, true)) == done_count(mask) + 1,
    decreases mask.len(),
{
    let m2 = mask.update(i, true);
    if i == mask.len() - 1 {
        assert(m2.drop_last() =~= mask.drop_last());
    } else {
        assert(m2.drop_last() =~= mask.drop_last().update(i, true));
        lemma_done_count_set(mask.drop_last(), i);
    }
}

proof fn lemma_gain_mono(alloc: Seq<Seq<usize>>, m1: Seq<bool>, m2: Seq<bool>, j: int, k: nat)
    requires
        k <= m1.len(),
        k <= m2.len(),
        forall|i: int| 0 <= i < k && #[trigger] m1[i] ==> m2[i],
    ensures
        gain(alloc, m1, j, k) <= gain(alloc, m2, j, k),
    decreases k,
{
    if k > 0 {
        lemma_gain_mono(alloc, m1, m2, j, (k - 1) as nat);
    }
}

proof fn lemma_gain_set(alloc: Seq<Seq<usize>>, mask: Seq<bool>, i: int, j: int, k: nat)
    requires
        0 <= i < mask.len(),
        k <= mask.len(),
        !mask[i],
    ensures
        gain(alloc, mask.update(i, true), j, k) == gain(alloc, mask, j, k) + if i < k {
            alloc[i][j] as int
        } else {
            0
        },
    decreases k,
{
    if k > 0 {
        lemma_gain_set(alloc, mask, i, j, (k - 1) as nat);
    }
}

/// Under a set of finished tasks that no unfinished task can extend, every
/// task among the first `k` of a safe order is finished.
proof fn lemma_safe_prefix_done(
    avail: Seq<usize>,
    alloc: Seq<Seq<usize>>, need: Seq<Seq<usize>>,
    mask: Seq<bool>,
    s: Seq<int>,
    k: int,
)
    requires
        mask.len() == alloc.len(),
        forall|i: int| 0 <= i < alloc.len() ==> #[trigger] mask[i] || !can_run(avail, alloc, need, mask, i),
        safe_sequence(avail, alloc, need, s),
        0 <= k <= s.len(),
    ensures
        forall|q: int| 0 <= q < k ==> mask[#[trigger] s[q]],
    decreases k,
{
    if k > 0 {
        let k1 = k - 1;
        lemma_safe_prefix_done(avail, alloc, need, mask, s, k1);
        let n = alloc.len();
        let pre = mask_of(s.take(k1), n);
        assert forall|i: int| 0 <= i < n && #[trigger] pre[i] implies mask[i] by {
            let q = choose|q: int| 0 <= q < s.take(k1).len() && s.take(k1)[q] == i;
            assert(s[q] == i);
        }
        let x = s[k1];
        assert(can_run(avail, alloc, need, pre, x));
        assert forall|j: int| 0 <= j < avail.len() implies need[x][j] <= #[trigger] pool(
            avail,
            alloc,
            mask,
            j,
        ) by {
            lemma_gain_mono(alloc, pre, mask, j, n);
            assert(need[x][j] <= pool(avail, alloc, pre, j));
        }
        assert(mask[x]);
    }
}

/// A set of finished tasks that no unfinished task can extend leaves no
/// safe order, as soon as one task is unfinished.
proof fn lemma_stuck_is_deadlock(avail: Seq<usize>, alloc: Seq<Seq<usize>>, need: Seq<Seq<usize>>, mask: Seq<bool>, u: int)
    requires
        mask.len() == alloc.len(),
        forall|i: int| 0 <= i < alloc.len() ==> #[trigger] mask[i] || !can_run(avail, alloc, need, mask, i),
        0 <= u < alloc.len(),
        !mask[u],
    ensures
        deadlocked(avail, alloc, need),
{
    if exists|s: Seq<int>| safe_sequence(avail, alloc, need, s) {
        let s = choose|s: Seq<int>| safe_sequence(avail, alloc, need, s);
        lemma_safe_prefix_done(avail, alloc, need, mask, s, s.len() as int);
        assert(s.contains(u));
        let q = choose|q: int| 0 <= q < s.len() && s[q] == u;
        assert(mask[s[q]]);
    }
}

/// Runs the safety check: starting from the free units `avail`, repeatedly
/// lets any unfinished task whose requests all fit finish and release what it
/// holds, until a full pass finishes nobody. Returns whether some task is
/// left unfinished, which happens exactly when no safe order exists.
pub fn check_safety(avail: &Vec<usize>, rows: &Vec<ClassRow>) -> (dead: bool)
    requires
        rows_sized(rows@, avail@.len()),
    ensures
        dead == deadlocked(avail@, allocs(rows@), needs(rows@)),
{
    let ghost al = allocs(rows@);
    let ghost ne = needs(rows@);
    let n = rows.len();
    let m = avail.len();
    let mut work: Vec<usize> = Vec::new();
    let mut j: usize = 0;
    while j < m
        invariant
            j <= m,
            m == avail@.len(),
            work@ == avail@.take(j as int),
        decreases m - j,
    {
        work.push(avail[j]);
        j = j + 1;
        assert(work@ =~= avail@.take(j as int));
    }
    let mut finish: Vec<bool> = Vec::new();
    let mut i: usize = 0;
    while i < n
        invariant
            i <= n,
            finish@ =~= Seq::new(i as nat, |x: int| false),
        decreases n - i,
    {
        finish.push(false);
        i = i + 1;
    }
    let ghost mut ord: Seq<int> = Seq::empty();
    proof {
        assert(work@ =~= avail@);
        assert(finish@ =~= mask_of(ord, n as nat));
        assert forall|j: int| 0 <= j < m implies work@[j] as int == #[trigger] pool(
            avail@,
            al,
            finish@,
            j,
        ) || (work@[j] == usize::MAX && pool(avail@, al, finish@, j) >= usize::MAX) by {
            lemma_gain_mono(al, finish@, finish@, j, 0);
            lemma_gain_zero(al, finish@, j, n as nat);
        }
    }
    loop
        invariant
            n == rows@.len(),
            al == allocs(rows@),
            ne == needs(rows@),
            m == avail@.len(),
            rows_sized(rows@, avail@.len()),
            finish@.len() == n,
            work@.len() == m,
            finish@ == mask_of(ord, n as nat),
            forall|j: int|
                0 <= j < m ==> work@[j] as int == #[trigger] pool(avail@, al, finish@, j) || (
                work@[j] == usize::MAX && pool(avail@, al, finish@, j) >= usize::MAX),
            forall|k: int|
                0 <= k < ord.len() ==> 0 <= #[trigger] ord[k] < n && can_run(
                    avail@,
                    al,
                    ne,
                    mask_of(ord.take(k), n as nat),
                    ord[k],
                ),
        ensures
            finish@.len() == n,
            finish@ == mask_of(ord, n as nat),
            forall|k: int|
                0 <= k < ord.len() ==> 0 <= #[trigger] ord[k] < n && can_run(
                    avail@,
                    al,
                    ne,
                    mask_of(ord.take(k), n as nat),
                    ord[k],
                ),
            forall|x: int| 0 <= x < n ==> #[trigger] finish@[x] || !can_run(avail@, al, ne, finish@, x),
        decreases n - done_count(finish@),
    {
        let ghost start = finish@;
        let mut progress = false;
        let mut i: usize = 0;
        while i < n
            invariant
                i <= n,
                n == rows@.len(),
                al == allocs(rows@),
                ne == needs(rows@),
            al == allocs(rows@),
            ne == needs(rows@),
                m == avail@.len(),
                rows_sized(rows@, avail@.len()),
                finish@.len() == n,
                work@.len() == m,
                start.len() == n,
                finish@ == mask_of(ord, n as nat),
                forall|j: int|
                    0 <= j < m ==> work@[j] as int == #[trigger] pool(avail@, al, finish@, j) || (
                    work@[j] == usize::MAX && pool(avail@, al, finish@, j) >= usize::MAX),
                forall|k: int|
                    0 <= k < ord.len() ==> 0 <= #[trigger] ord[k] < n && can_run(
                        avail@,
                        al,
                        ne,
                        mask_of(ord.take(k), n as nat),
                        ord[k],
                    ),
                progress ==> done_count(finish@) > done_count(start),
                !progress ==> finish@ == start,
                !progress ==> forall|x: int|
                    0 <= x < i ==> #[trigger] finish@[x] || !can_run(avail@, al, ne, finish@, x),
            decreases n - i,
        {
            if !finish[i] {
                let mut blocked = false;
                let mut j: usize = 0;
                while j < m
                    invariant
                        j <= m,
                        i < n,
                        n == rows@.len(),
                        al == allocs(rows@),
                        ne == needs(rows@),
                al == allocs(rows@),
                ne == needs(rows@),
            al == allocs(rows@),
            ne == needs(rows@),
                        m == avail@.len(),
                        work@.len() == m,
                        rows_sized(rows@, avail@.len()),
                        blocked ==> exists|q: int|
                            0 <= q < m && rows@[i as int].need@[q] > #[trigger] work@[q],
                        !blocked ==> forall|q: int|
                            0 <= q < j ==> rows@[i as int].need@[q] <= #[trigger] work@[q],
                    ensures
                        blocked ==> exists|q: int|
                            0 <= q < m && rows@[i as int].need@[q] > #[trigger] work@[q],
                        !blocked ==> forall|q: int|
                            0 <= q < m ==> rows@[i as int].need@[q] <= #[trigger] work@[q],
                    decreases m - j,
                {
                    if rows[i].need[j] > work[j] {
                        blocked = true;
                        break;
                    }
                    j = j + 1;
                }
                if blocked {
                    proof {
                        let q = choose|q: int| 0 <= q < m && rows@[i as int].need@[q] > #[trigger] work@[q];
                        assert(!(rows@[i as int].need@[q] <= pool(avail@, al, finish@, q)));
                    }
                } else {
                    let ghost before = finish@;
                    let ghost old_ord = ord;
                    proof {
                        assert forall|q: int| 0 <= q < m implies rows@[i as int].need@[q] <= #[trigger] pool(
                            avail@,
                            al,
                            finish@,
                            q,
                        ) by {
                            assert(rows@[i as int].need@[q] <= work@[q]);
                        }
                        assert(can_run(avail@, al, ne, before, i as int));
                        lemma_done_count_set(before, i as int);
                        ord = ord.push(i as int);
                        assert(ord.take(old_ord.len() as int) =~= old_ord);
                        assert forall|k: int| 0 <= k < old_ord.len() implies #[trigger] ord.take(k) =~= old_ord.take(k) by {}
                        assert(mask_of(ord, n as nat) =~= before.update(i as int, true)) by {
                            assert forall|x: int| 0 <= x < n implies #[trigger] ord.contains(x) == (old_ord.contains(x) || x == i) by {
                                if x == i {
                                    assert(ord[old_ord.len() as int] == x);
                                }
                                if old_ord.contains(x) {
                                    let q = choose|q: int| 0 <= q < old_ord.len() && old_ord[q] == x;
                                    assert(ord[q] == x);
                                }
                            }
                        }
                    }
                    finish.set(i, true);
                    let mut j: usize = 0;
                    while j < m
                        invariant
                            j <= m,
                            i < n,
                            n == rows@.len(),
                            al == allocs(rows@),
                            ne == needs(rows@),
                        al == allocs(rows@),
                        ne == needs(rows@),
                al == allocs(rows@),
                ne == needs(rows@),
            al == allocs(rows@),
            ne == needs(rows@),
                            m == avail@.len(),
                            work@.len() == m,
                            rows_sized(rows@, avail@.len()),
                            finish@.len() == n,
                            before.len() == n,
                            !before[i as int],
                            finish@ == before.update(i as int, true),
                            forall|q: int|
                                j <= q < m ==> work@[q] as int == #[trigger] pool(avail@, al, before, q) || (
                                work@[q] == usize::MAX && pool(avail@, al, before, q) >= usize::MAX),
                            forall|q: int|
                                0 <= q < j ==> work@[q] as int == #[trigger] pool(avail@, al, finish@, q) || (
                                work@[q] == usize::MAX && pool(avail@, al, finish@, q) >= usize::MAX),
                        decreases m - j,
                    {
                        proof {
                            lemma_gain_set(al, before, i as int, j as int, n as nat);
                        }
                        let a = rows[i].alloc[j];
                        let w = work[j].saturating_add(a);
                        proof {
                            let p0 = pool(avail@, al, before, j as int);
                            let p1 = pool(avail@, al, finish@, j as int);
                            assert(p1 == p0 + a);
                            assert(w as int == p1 || (w == usize::MAX && p1 >= usize::MAX));
                        }
                        work.set(j, w);
                        j = j + 1;
                    }
                    progress = true;
                    proof {
                        if done_count(finish@) <= done_count(start) {
                            assert(false);
                        }
                    }
                }
            }
            i = i + 1;
        }
        proof {
            lemma_done_count_bound(finish@);
        }
        if !progress {
            break;
        }
    }
    let mut k: usize = 0;
    while k < n
        invariant
            k <= n,
            n == rows@.len(),
            al == allocs(rows@),
            ne == needs(rows@),
            finish@.len() == n,
            forall|x: int| 0 <= x < n ==> #[trigger] finish@[x] || !can_run(avail@, al, ne, finish@, x),
            forall|x: int| 0 <= x < k ==> #[trigger] finish@[x],
        decreases n - k,
    {
        if !finish[k] {
            proof {
                lemma_stuck_is_deadlock(avail@, al, ne, finish@, k as int);
            }
            return true;
        }
        k = k + 1;
    }
    proof {
        assert forall|x: int| 0 <= x < n implies #[trigger] ord.contains(x) by {
            assert(finish@[x]);
        }
        assert(safe_sequence(avail@, al, ne, ord));
    }
    false
}

proof fn lemma_gain_zero(alloc: Seq<Seq<usize>>, mask: Seq<bool>, j: int, k: nat)
    requires
        k <= mask.len(),
        forall|i: int| 0 <= i < mask.len() ==> !#[trigger] mask[i],
    ensures
        gain(alloc, mask, j, k) == 0,
    decreases k,
{
    if k > 0 {
        lemma_gain_zero(alloc, mask, j, (k - 1) as nat);
    }
}

} // verus!
