use vstd::prelude::*;

verus! {

/// One task's row of the resource ledger for one id-space (mutexes or
/// semaphores): units currently held and units currently requested, per id.
pub struct ClassRow {
    pub alloc: Vec<usize>,
    pub need: Vec<usize>,
}

impl ClassRow {
    /// A row for `n` ids, all zero.
    pub fn new(n: usize) -> (r: ClassRow)
        ensures
            r.alloc@ == Seq::new(n as nat, |j: int| 0usize),
            r.need@ == Seq::new(n as nat, |j: int| 0usize),
    {
        let mut alloc: Vec<usize> = Vec::new();
        let mut need: Vec<usize> = Vec::new();
        let mut j: usize = 0;
        while j < n
            invariant
                j <= n,
                alloc@ == Seq::new(j as nat, |k: int| 0usize),
                need@ == Seq::new(j as nat, |k: int| 0usize),
            decreases n - j,
        {
            alloc.push(0);
            need.push(0);
            j = j + 1;
            assert(alloc@ =~= Seq::new(j as nat, |k: int| 0usize));
            assert(need@ =~= Seq::new(j as nat, |k: int| 0usize));
        }
        ClassRow { alloc, need }
    }
}

/// Every row of `rows` has an entry for each of `n` ids.
pub open spec fn rows_sized(rows: Seq<ClassRow>, n: nat) -> bool {
    forall|t: int| 0 <= t < rows.len() ==> (#[trigger] rows[t]).alloc@.len() == n
        && rows[t].need@.len() == n
}

/// Two rows hold the same entries.
pub open spec fn same_row(a: ClassRow, b: ClassRow) -> bool {
    a.alloc@ == b.alloc@ && a.need@ == b.need@
}

/// `new` is `old` with task `t`'s entries for `id` overwritten where a value is
/// given, and nothing else changed.
pub open spec fn rows_set(
    old: Seq<ClassRow>,
    new: Seq<ClassRow>,
    t: int,
    id: int,
    alloc: Option<usize>,
    need: Option<usize>,
) -> bool {
    &&& new.len() == old.len()
    &&& forall|i: int| 0 <= i < old.len() && i != t ==> same_row(#[trigger] new[i], old[i])
    &&& new[t].alloc@ == match alloc {
        Some(a) => old[t].alloc@.update(id, a),
        None => old[t].alloc@,
    }
    &&& new[t].need@ == match need {
        Some(v) => old[t].need@.update(id, v),
        None => old[t].need@,
    }
}

/// Rows are unchanged.
pub open spec fn rows_same(old: Seq<ClassRow>, new: Seq<ClassRow>) -> bool {
    new.len() == old.len() && forall|i: int| 0 <= i < old.len() ==> same_row(#[trigger] new[i], old[i])
}

/// Every row has an entry for id `id`.
pub open spec fn rows_cover(rows: Seq<ClassRow>, id: int) -> bool {
    forall|t: int| 0 <= t < rows.len() ==> id < (#[trigger] rows[t]).alloc@.len() && id
        < rows[t].need@.len()
}

/// `new` is `old` after the unit of id `id` held by task `from` has passed
/// to task `to`: `to` no longer requests it and holds it, `from` no longer
/// holds it, and nothing else changed.
pub open spec fn handed_over(
    old: Seq<ClassRow>,
    new: Seq<ClassRow>,
    from: int,
    to: int,
    id: int,
) -> bool {
    &&& new.len() == old.len()
    &&& forall|i: int|
        0 <= i < old.len() && i != from && i != to ==> same_row(#[trigger] new[i], old[i])
    &&& new[to].need@ == old[to].need@.update(id, 0)
    &&& new[from].alloc@ == old[from].alloc@.update(id, 0)
    &&& from != to ==> new[to].alloc@ == old[to].alloc@.update(id, 1) && new[from].need@
        == old[from].need@
}

/// Same number of rows, each with as many entries as before.
pub open spec fn same_shape(old: Seq<ClassRow>, new: Seq<ClassRow>) -> bool {
    &&& new.len() == old.len()
    &&& forall|t: int|
        0 <= t < old.len() ==> (#[trigger] new[t]).alloc@.len() == old[t].alloc@.len()
            && new[t].need@.len() == old[t].need@.len()
}

/// Overwrites task `t`'s entries for `id` where a value is given.
pub fn set_entry(
    rows: &mut Vec<ClassRow>,
    t: usize,
    id: usize,
    alloc: Option<usize>,
    need: Option<usize>,
)
    requires
        t < old(rows).len(),
        id < old(rows)[t as int].alloc@.len(),
        id < old(rows)[t as int].need@.len(),
    ensures
        rows_set(old(rows)@, final(rows)@, t as int, id as int, alloc, need),
        same_shape(old(rows)@, final(rows)@),
{
    let row = &mut rows[t];
    match alloc {
        Some(a) => row.alloc.set(id, a),
        None => {},
    }
    match need {
        Some(v) => row.need.set(id, v),
        None => {},
    }
}

} // verus!

verus! {

/// Passes the unit of id `id` held by task `from` to task `to`.
pub fn hand_over(rows: &mut Vec<ClassRow>, from: usize, to: usize, id: usize)
    requires
        from < old(rows).len(),
        to < old(rows).len(),
        rows_cover(old(rows)@, id as int),
    ensures
        handed_over(old(rows)@, final(rows)@, from as int, to as int, id as int),
        same_shape(old(rows)@, final(rows)@),
{
    let ghost r0 = rows@;
    set_entry(rows, to, id, Some(1), Some(0));
    let ghost r1 = rows@;
    assert(r1[from as int].alloc@.len() == r0[from as int].alloc@.len());
    set_entry(rows, from, id, Some(0), None);
    proof {
        if from == to {
            assert(rows@[from as int].alloc@ =~= r0[from as int].alloc@.update(id as int, 0));
        }
    }
}

} // verus!

verus! {

/// Entry `id` of `s` set to zero, or a zero entry appended when `id` is one
/// past the end.
pub open spec fn zeroed_at(s: Seq<usize>, id: int) -> Seq<usize> {
    if id < s.len() {
        s.update(id, 0)
    } else {
        s.push(0)
    }
}

/// Gives id `id` a zero entry in every row: overwritten when the rows
/// already have one, appended when `id` is the next id.
pub fn zero_column(rows: &mut Vec<ClassRow>, id: usize)
    requires
        forall|t: int|
            0 <= t < old(rows).len() ==> id <= (#[trigger] old(rows)[t]).alloc@.len() && id
                <= old(rows)[t].need@.len(),
    ensures
        final(rows)@.len() == old(rows)@.len(),
        forall|t: int|
            0 <= t < old(rows)@.len() ==> (#[trigger] final(rows)@[t]).alloc@ == zeroed_at(
                old(rows)@[t].alloc@,
                id as int,
            ) && final(rows)@[t].need@ == zeroed_at(old(rows)@[t].need@, id as int),
{
    let n = rows.len();
    let mut t: usize = 0;
    while t < n
        invariant
            t <= n,
            n == old(rows)@.len(),
            rows@.len() == n,
            forall|k: int|
                0 <= k < t ==> (#[trigger] rows@[k]).alloc@ == zeroed_at(old(rows)@[k].alloc@, id as int)
                    && rows@[k].need@ == zeroed_at(old(rows)@[k].need@, id as int),
            forall|k: int| t <= k < n ==> #[trigger] rows@[k] == old(rows)@[k],
            forall|k: int|
                0 <= k < n ==> id <= (#[trigger] old(rows)@[k]).alloc@.len() && id
                    <= old(rows)@[k].need@.len(),
        decreases n - t,
    {
        let row = &mut rows[t];
        if id < row.alloc.len() {
            row.alloc.set(id, 0);
        } else {
            row.alloc.push(0);
        }
        if id < row.need.len() {
            row.need.set(id, 0);
        } else {
            row.need.push(0);
        }
        t = t + 1;
    }
}

} // verus!
