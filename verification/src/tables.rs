//! Existence-based processing operates over lists, filtering/zipping/otherwise processing
//! them. The outputs of a logic are its identities with their syntheses, and its events.

use vstd::prelude::*;

verus! {

/// Builds output tables based on output of logics
pub trait OutputTable<ProcessOutput> {
    /// The logic is in a state in which it can list its output; a logic that always can
    /// need not say so.
    open spec fn table_ready(&self) -> bool {
        true
    }

    /// The rows the logic lists, in order.
    spec fn table(&self) -> Seq<ProcessOutput>;

    /// The rows the logic lists, in order.
    fn get_table(&self) -> (res: Vec<ProcessOutput>)
        requires
            self.table_ready(),
        ensures
            res@ == self.table(),
    ;
}

/// The rows of two tables paired up, as far as the shorter goes; each row is a clone.
pub fn zip_rows<A: Clone, B: Clone>(a: &[A], b: &[B]) -> (res: Vec<(A, B)>)
    ensures
        res@.len() == if a@.len() < b@.len() { a@.len() } else { b@.len() },
        forall|i: int| 0 <= i < res@.len() ==> {
            &&& cloned(a@[i], (#[trigger] res@[i]).0)
            &&& cloned(b@[i], res@[i].1)
        },
{
    let n = if a.len() < b.len() { a.len() } else { b.len() };
    let mut res: Vec<(A, B)> = Vec::new();
    let mut i: usize = 0;
    while i < n
        invariant
            n <= a@.len(),
            n <= b@.len(),
            n == if a@.len() < b@.len() { a@.len() } else { b@.len() },
            i <= n,
            res@.len() == i,
            forall|k: int| 0 <= k < i ==> {
                &&& cloned(a@[k], (#[trigger] res@[k]).0)
                &&& cloned(b@[k], res@[k].1)
            },
        decreases n - i,
    {
        let x = a[i].clone();
        let y = b[i].clone();
        res.push((x, y));
        i = i + 1;
    }
    res
}

/// Clones of the rows whose flag is set, in order.
pub fn keep_rows<T: Clone>(rows: &[T], keep: &[bool]) -> (res: Vec<T>)
    requires
        keep@.len() == rows@.len(),
    ensures
        res@.len() == kept(keep@, keep@.len() as int).len(),
        forall|i: int| 0 <= i < res@.len() ==> cloned(rows@[kept(keep@, keep@.len() as int)[i]], #[trigger] res@[i]),
{
    let mut res: Vec<T> = Vec::new();
    let mut i: usize = 0;
    while i < rows.len()
        invariant
            keep@.len() == rows@.len(),
            i <= rows@.len(),
            res@.len() == kept(keep@, i as int).len(),
            forall|k: int| 0 <= k < res@.len() ==> cloned(rows@[kept(keep@, i as int)[k]], #[trigger] res@[k]),
        decreases rows@.len() - i,
    {
        if keep[i] {
            let x = rows[i].clone();
            res.push(x);
            assert(kept(keep@, i + 1) == kept(keep@, i as int).push(i as int));
        }
        i = i + 1;
    }
    res
}

/// The positions before `k` whose flag is set, in increasing order.
pub open spec fn kept(keep: Seq<bool>, k: int) -> Seq<int>
    decreases k,
{
    if k <= 0 {
        Seq::empty()
    } else if keep[k - 1] {
        kept(keep, k - 1).push(k - 1)
    } else {
        kept(keep, k - 1)
    }
}

} // verus!
