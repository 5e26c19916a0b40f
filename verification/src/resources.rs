//! # Resource Logics
//!
//! Resource logics communicate that generic or specific resources can be created, destroyed,
//! converted, or transferred between abstract or concrete locations. They create, destroy, and
//! exchange (usually) discrete quantities of generic or specific resources in or between abstract
//! or concrete locations on demand or over time, and trigger other actions when these
//! transactions take place.

use std::collections::BTreeMap;
use vstd::prelude::*;

use crate::{Event, Logic, Reaction};

verus! {

use vstd::std_specs::cmp::PartialEqSpec;

broadcast use vstd::std_specs::btree::group_btree_axioms;

/// An integer type that a resource pool can hold. Its values are exactly the integers that
/// `fits` accepts.
pub trait PoolValue: Copy {
    /// The integer this value stands for.
    spec fn as_int(self) -> int;

    /// The type can hold the integer `v`.
    spec fn fits(v: int) -> bool;

    /// The value that stands for `v`, where the type can hold it.
    spec fn of_int(v: int) -> Self;

    proof fn lemma_value(self)
        ensures
            Self::fits(self.as_int()),
            Self::of_int(self.as_int()) == self,
    ;

    /// The integers the type holds lie within those of 64-bit integers, without gaps.
    proof fn lemma_fits(lo: int, hi: int, v: int)
        requires
            Self::fits(lo),
            Self::fits(hi),
            lo <= v <= hi,
        ensures
            Self::fits(v),
            i64::MIN <= lo,
            hi <= u64::MAX,
    ;

    proof fn lemma_of_int(v: int)
        requires
            Self::fits(v),
        ensures
            Self::of_int(v).as_int() == v,
    ;

    /// The value as a wider integer.
    fn to_wide(self) -> (r: i128)
        ensures
            r as int == self.as_int(),
            i64::MIN <= r <= u64::MAX,
    ;

    /// The value that stands for `v`.
    fn from_wide(v: i128) -> (r: Self)
        requires
            Self::fits(v as int),
        ensures
            r == Self::of_int(v as int),
    ;
}

impl PoolValue for u8 {
    open spec fn as_int(self) -> int {
        self as int
    }

    open spec fn fits(v: int) -> bool {
        u8::MIN <= v <= u8::MAX
    }

    open spec fn of_int(v: int) -> u8 {
        v as u8
    }

    proof fn lemma_value(self) {
    }

    proof fn lemma_of_int(v: int) {
    }

    proof fn lemma_fits(lo: int, hi: int, v: int) {
    }

    fn to_wide(self) -> (r: i128) {
        self as i128
    }

    fn from_wide(v: i128) -> (r: u8) {
        v as u8
    }
}

impl PoolValue for u16 {
    open spec fn as_int(self) -> int {
        self as int
    }

    open spec fn fits(v: int) -> bool {
        u16::MIN <= v <= u16::MAX
    }

    open spec fn of_int(v: int) -> u16 {
        v as u16
    }

    proof fn lemma_value(self) {
    }

    proof fn lemma_of_int(v: int) {
    }

    proof fn lemma_fits(lo: int, hi: int, v: int) {
    }

    fn to_wide(self) -> (r: i128) {
        self as i128
    }

    fn from_wide(v: i128) -> (r: u16) {
        v as u16
    }
}

impl PoolValue for u32 {
    open spec fn as_int(self) -> int {
        self as int
    }

    open spec fn fits(v: int) -> bool {
        u32::MIN <= v <= u32::MAX
    }

    open spec fn of_int(v: int) -> u32 {
        v as u32
    }

    proof fn lemma_value(self) {
    }

    proof fn lemma_of_int(v: int) {
    }

    proof fn lemma_fits(lo: int, hi: int, v: int) {
    }

    fn to_wide(self) -> (r: i128) {
        self as i128
    }

    fn from_wide(v: i128) -> (r: u32) {
        v as u32
    }
}

impl PoolValue for u64 {
    open spec fn as_int(self) -> int {
        self as int
    }

    open spec fn fits(v: int) -> bool {
        u64::MIN <= v <= u64::MAX
    }

    open spec fn of_int(v: int) -> u64 {
        v as u64
    }

    proof fn lemma_value(self) {
    }

    proof fn lemma_of_int(v: int) {
    }

    proof fn lemma_fits(lo: int, hi: int, v: int) {
    }

    fn to_wide(self) -> (r: i128) {
        self as i128
    }

    fn from_wide(v: i128) -> (r: u64) {
        v as u64
    }
}

impl PoolValue for i8 {
    open spec fn as_int(self) -> int {
        self as int
    }

    open spec fn fits(v: int) -> bool {
        i8::MIN <= v <= i8::MAX
    }

    open spec fn of_int(v: int) -> i8 {
        v as i8
    }

    proof fn lemma_value(self) {
    }

    proof fn lemma_of_int(v: int) {
    }

    proof fn lemma_fits(lo: int, hi: int, v: int) {
    }

    fn to_wide(self) -> (r: i128) {
        self as i128
    }

    fn from_wide(v: i128) -> (r: i8) {
        v as i8
    }
}

impl PoolValue for i16 {
    open spec fn as_int(self) -> int {
        self as int
    }

    open spec fn fits(v: int) -> bool {
        i16::MIN <= v <= i16::MAX
    }

    open spec fn of_int(v: int) -> i16 {
        v as i16
    }

    proof fn lemma_value(self) {
    }

    proof fn lemma_of_int(v: int) {
    }

    proof fn lemma_fits(lo: int, hi: int, v: int) {
    }

    fn to_wide(self) -> (r: i128) {
        self as i128
    }

    fn from_wide(v: i128) -> (r: i16) {
        v as i16
    }
}

impl PoolValue for i32 {
    open spec fn as_int(self) -> int {
        self as int
    }

    open spec fn fits(v: int) -> bool {
        i32::MIN <= v <= i32::MAX
    }

    open spec fn of_int(v: int) -> i32 {
        v as i32
    }

    proof fn lemma_value(self) {
    }

    proof fn lemma_of_int(v: int) {
    }

    proof fn lemma_fits(lo: int, hi: int, v: int) {
    }

    fn to_wide(self) -> (r: i128) {
        self as i128
    }

    fn from_wide(v: i128) -> (r: i32) {
        v as i32
    }
}

impl PoolValue for i64 {
    open spec fn as_int(self) -> int {
        self as int
    }

    open spec fn fits(v: int) -> bool {
        i64::MIN <= v <= i64::MAX
    }

    open spec fn of_int(v: int) -> i64 {
        v as i64
    }

    proof fn lemma_value(self) {
    }

    proof fn lemma_of_int(v: int) {
    }

    proof fn lemma_fits(lo: int, hi: int, v: int) {
    }

    fn to_wide(self) -> (r: i128) {
        self as i128
    }

    fn from_wide(v: i128) -> (r: i64) {
        v as i64
    }
}

/// A transaction holding the amount the value should change by.
#[derive(Clone, Copy, Debug, PartialEq, Eq)]
pub enum Transaction<Value> {
    Change(Value),
    SetValue(Value),
    SetMax(Value),
    SetMin(Value),
}

/// Errors possible when trying to complete a transaction.
#[derive(Clone, Copy, Debug, PartialEq, Eq)]
pub enum ResourceError {
    PoolNotFound,
    TooBig,
    TooSmall,
}

pub type ResourceReaction<ID, Value> = (ID, Transaction<Value>);

#[derive(Clone, Copy, Debug, PartialEq, Eq)]
pub struct ResourceEvent<ID> {
    pub pool: ID,
    pub event_type: ResourceEventType,
}

#[derive(Clone, Copy, Debug, PartialEq, Eq)]
pub enum ResourceEventType {
    PoolUpdated,
    TransactionUnsuccessful(ResourceError),
}

impl<ID: Copy, Value: Copy> Reaction for (ID, Transaction<Value>) {}

impl<ID: Copy> Event for ResourceEvent<ID> {}

/// The order and equality of `ID` are those of its values.
pub open spec fn id_laws<ID: Ord>() -> bool {
    &&& vstd::laws_cmp::obeys_cmp::<ID>()
    &&& vstd::laws_eq::obeys_concrete_eq::<ID>()
}

/// Whether a transaction on pool `id` can be completed: the pool exists, and a change or a
/// set keeps its value between its min and max (both included).
pub open spec fn check_transaction<ID, V: PoolValue>(
    items: Map<ID, (V, V, V)>,
    id: ID,
    t: Transaction<V>,
) -> Result<(), (ID, ResourceError)> {
    if !items.contains_key(id) {
        Err((id, ResourceError::PoolNotFound))
    } else {
        let (value, min, max) = items[id];
        match t {
            Transaction::Change(amt) => if value.as_int() + amt.as_int() > max.as_int() {
                Err((id, ResourceError::TooBig))
            } else if value.as_int() + amt.as_int() < min.as_int() {
                Err((id, ResourceError::TooSmall))
            } else {
                Ok(())
            },
            Transaction::SetValue(amt) => if amt.as_int() > max.as_int() {
                Err((id, ResourceError::TooBig))
            } else if amt.as_int() < min.as_int() {
                Err((id, ResourceError::TooSmall))
            } else {
                Ok(())
            },
            _ => Ok(()),
        }
    }
}

/// The pools after a transaction on pool `id` has been applied.
pub open spec fn apply_transaction<ID, V: PoolValue>(
    items: Map<ID, (V, V, V)>,
    id: ID,
    t: Transaction<V>,
) -> Map<ID, (V, V, V)> {
    let (value, min, max) = items[id];
    items.insert(
        id,
        match t {
            Transaction::Change(amt) => (V::of_int(value.as_int() + amt.as_int()), min, max),
            Transaction::SetValue(amt) => (amt, min, max),
            Transaction::SetMax(new_max) => (value, min, new_max),
            Transaction::SetMin(new_min) => (value, new_min, max),
        },
    )
}

/// A transaction on a pool that exists completes exactly when the value it leaves lies
/// between the pool's min and max, both included: a set to any value in that range, the min
/// and the max among them, completes and the pool then holds that value; a change completes
/// exactly when the new value is in range, and the pool then holds it. A value above the max
/// is refused as too big, one below the min (and not above the max) as too small. Changing the
/// bounds always completes. A transaction on a pool that does not exist is refused as not
/// found.
pub proof fn law_transaction_completes_in_bounds<ID, V: PoolValue>(items: Map<ID, (V, V, V)>, id: ID, t: Transaction<V>)
    ensures
        !items.contains_key(id) ==> step_transaction(items, (id, t)) == (items, Err::<ID, (ID, ResourceError)>((id, ResourceError::PoolNotFound))),
        items.contains_key(id) ==> ({
            let (value, min, max) = items[id];
            let (after, done) = step_transaction(items, (id, t));
            match t {
                Transaction::SetValue(v) => {
                    &&& (done == Ok::<ID, (ID, ResourceError)>(id)) <==> (min.as_int() <= v.as_int() && v.as_int() <= max.as_int())
                    &&& v.as_int() > max.as_int() ==> done == Err::<ID, (ID, ResourceError)>((id, ResourceError::TooBig))
                    &&& v.as_int() < min.as_int() && v.as_int() <= max.as_int() ==> done == Err::<ID, (ID, ResourceError)>((id, ResourceError::TooSmall))
                    &&& done is Ok ==> after[id] == (v, min, max)
                    &&& done is Err ==> after == items
                },
                Transaction::Change(a) => {
                    &&& (done == Ok::<ID, (ID, ResourceError)>(id)) <==> (min.as_int() <= value.as_int() + a.as_int()
                        && value.as_int() + a.as_int() <= max.as_int())
                    &&& value.as_int() + a.as_int() > max.as_int() ==> done == Err::<ID, (ID, ResourceError)>((id, ResourceError::TooBig))
                    &&& value.as_int() + a.as_int() < min.as_int() && value.as_int() + a.as_int() <= max.as_int()
                        ==> done == Err::<ID, (ID, ResourceError)>((id, ResourceError::TooSmall))
                    &&& done is Ok ==> after[id].0.as_int() == value.as_int() + a.as_int() && after[id].1 == min && after[id].2 == max
                    &&& done is Err ==> after == items
                },
                Transaction::SetMax(m) => done == Ok::<ID, (ID, ResourceError)>(id) && after[id] == (value, min, m),
                Transaction::SetMin(m) => done == Ok::<ID, (ID, ResourceError)>(id) && after[id] == (value, m, max),
            }
        }),
{
    if items.contains_key(id) {
        let (value, min, max) = items[id];
        match t {
            Transaction::Change(a) => {
                if check_transaction(items, id, t) is Ok {
                    law_completed_change_within_bounds(items, id, a);
                }
            },
            _ => {},
        }
    }
}

/// One transaction: the pools it leaves, and its entry in the completed list.
pub open spec fn step_transaction<ID, V: PoolValue>(
    items: Map<ID, (V, V, V)>,
    tx: (ID, Transaction<V>),
) -> (Map<ID, (V, V, V)>, Result<ID, (ID, ResourceError)>) {
    match check_transaction(items, tx.0, tx.1) {
        Err(e) => (items, Err(e)),
        Ok(_) => (apply_transaction(items, tx.0, tx.1), Ok(tx.0)),
    }
}

/// The transactions applied in order: the pools they leave, and the completed list.
pub open spec fn run_transactions<ID, V: PoolValue>(
    items: Map<ID, (V, V, V)>,
    txs: Seq<(ID, Transaction<V>)>,
) -> (Map<ID, (V, V, V)>, Seq<Result<ID, (ID, ResourceError)>>)
    decreases txs.len(),
{
    if txs.len() == 0 {
        (items, Seq::empty())
    } else {
        let (m, done) = run_transactions(items, txs.drop_last());
        let (m2, r) = step_transaction(m, txs.last());
        (m2, done.push(r))
    }
}

/// A transaction that cannot be completed leaves every pool as it was, and is recorded as
/// its error.
pub proof fn law_failed_transaction_changes_nothing<ID, V: PoolValue>(
    items: Map<ID, (V, V, V)>,
    tx: (ID, Transaction<V>),
)
    requires
        check_transaction(items, tx.0, tx.1) is Err,
    ensures
        step_transaction(items, tx).0 == items,
        step_transaction(items, tx).1 == Err::<ID, (ID, ResourceError)>(check_transaction(items, tx.0, tx.1)->Err_0),
{
}

/// Applying a queue records one entry per transaction, in order, each naming the pool of its
/// transaction.
pub proof fn law_one_entry_per_transaction<ID, V: PoolValue>(
    items: Map<ID, (V, V, V)>,
    txs: Seq<(ID, Transaction<V>)>,
)
    ensures
        run_transactions(items, txs).1.len() == txs.len(),
        forall|i: int| 0 <= i < txs.len() ==> match #[trigger] run_transactions(items, txs).1[i] {
            Ok(id) => id == txs[i].0,
            Err((id, _)) => id == txs[i].0,
        },
    decreases txs.len(),
{
    if txs.len() > 0 {
        law_one_entry_per_transaction(items, txs.drop_last());
        let (m, done) = run_transactions(items, txs.drop_last());
        assert forall|i: int| 0 <= i < txs.len() implies match #[trigger] run_transactions(items, txs).1[i] {
            Ok(id) => id == txs[i].0,
            Err((id, _)) => id == txs[i].0,
        } by {
            if i < txs.len() - 1 {
                assert(run_transactions(items, txs).1[i] == done[i]);
                assert(txs.drop_last()[i] == txs[i]);
            }
        }
    }
}

/// Applying a queue never adds or removes a pool.
pub proof fn law_pools_unchanged<ID, V: PoolValue>(items: Map<ID, (V, V, V)>, txs: Seq<(ID, Transaction<V>)>)
    ensures
        run_transactions(items, txs).0.dom() == items.dom(),
    decreases txs.len(),
{
    if txs.len() > 0 {
        law_pools_unchanged(items, txs.drop_last());
        let (m, done) = run_transactions(items, txs.drop_last());
        let tx = txs.last();
        if check_transaction(m, tx.0, tx.1) is Ok {
            assert(m.contains_key(tx.0));
            assert(apply_transaction(m, tx.0, tx.1).dom() =~= m.dom());
        }
    }
}

/// A pool that no queued transaction names keeps its value, min and max.
pub proof fn law_untouched_pool_kept<ID, V: PoolValue>(
    items: Map<ID, (V, V, V)>,
    txs: Seq<(ID, Transaction<V>)>,
    id: ID,
)
    requires
        items.contains_key(id),
        forall|i: int| 0 <= i < txs.len() ==> (#[trigger] txs[i]).0 != id,
    ensures
        run_transactions(items, txs).0.contains_key(id),
        run_transactions(items, txs).0[id] == items[id],
    decreases txs.len(),
{
    if txs.len() > 0 {
        assert forall|i: int| 0 <= i < txs.drop_last().len() implies (#[trigger] txs.drop_last()[i]).0 != id by {
            assert(txs.drop_last()[i] == txs[i]);
        }
        law_untouched_pool_kept(items, txs.drop_last(), id);
        assert(txs.last() == txs[txs.len() - 1]);
    }
}

/// A change that completes leaves its pool's value between the pool's min and max (both
/// included): the value is the old value plus the amount.
pub proof fn law_completed_change_within_bounds<ID, V: PoolValue>(
    items: Map<ID, (V, V, V)>,
    id: ID,
    amt: V,
)
    requires
        check_transaction(items, id, Transaction::Change(amt)) is Ok,
    ensures
        ({
            let (value, min, max) = items[id];
            let after = apply_transaction(items, id, Transaction::Change(amt))[id];
            &&& after.0.as_int() == value.as_int() + amt.as_int()
            &&& min.as_int() <= after.0.as_int() <= max.as_int()
            &&& after.1 == min
            &&& after.2 == max
        }),
{
    let (value, min, max) = items[id];
    min.lemma_value();
    max.lemma_value();
    V::lemma_fits(min.as_int(), max.as_int(), value.as_int() + amt.as_int());
    V::lemma_of_int(value.as_int() + amt.as_int());
}

/// Every pool's value lies between its min and max.
pub open spec fn pools_in_bounds<ID, V: PoolValue>(items: Map<ID, (V, V, V)>) -> bool {
    forall|id: ID| #[trigger] items.contains_key(id) ==> items[id].1.as_int() <= items[id].0.as_int() <= items[id].2.as_int()
}

/// A set that completes leaves its pool's value between the pool's min and max.
pub proof fn law_completed_set_within_bounds<ID, V: PoolValue>(items: Map<ID, (V, V, V)>, id: ID, amt: V)
    requires
        check_transaction(items, id, Transaction::SetValue(amt)) is Ok,
    ensures
        ({
            let (value, min, max) = items[id];
            let after = apply_transaction(items, id, Transaction::SetValue(amt))[id];
            &&& after.0 == amt
            &&& min.as_int() <= after.0.as_int() <= max.as_int()
            &&& after.1 == min
            &&& after.2 == max
        }),
{
}

/// Pools that start within their bounds stay within them over a whole queue of changes and
/// sets: a transaction that would take a value past its min or max is refused.
pub proof fn law_queue_keeps_bounds<ID, V: PoolValue>(items: Map<ID, (V, V, V)>, txs: Seq<(ID, Transaction<V>)>)
    requires
        pools_in_bounds(items),
        forall|i: int| 0 <= i < txs.len() ==> (#[trigger] txs[i]).1 is Change || txs[i].1 is SetValue,
    ensures
        pools_in_bounds(run_transactions(items, txs).0),
    decreases txs.len(),
{
    if txs.len() > 0 {
        let init = txs.drop_last();
        assert forall|i: int| 0 <= i < init.len() implies (#[trigger] init[i]).1 is Change || init[i].1 is SetValue by {
            assert(init[i] == txs[i]);
        }
        law_queue_keeps_bounds(items, init);
        let (m, done) = run_transactions(items, init);
        let tx = txs.last();
        assert(tx == txs[txs.len() - 1]);
        if check_transaction(m, tx.0, tx.1) is Ok {
            match tx.1 {
                Transaction::Change(amt) => law_completed_change_within_bounds(m, tx.0, amt),
                Transaction::SetValue(amt) => law_completed_set_within_bounds(m, tx.0, amt),
                _ => {},
            }
            let m2 = apply_transaction(m, tx.0, tx.1);
            assert forall|id: ID| #[trigger] m2.contains_key(id) implies m2[id].1.as_int() <= m2[id].0.as_int() <= m2[id].2.as_int() by {
                if id != tx.0 {
                    assert(m.contains_key(id));
                }
            }
        }
    }
}

/// A resource logic that queues transactions, then applies them all at once when updating.
pub struct QueuedResources<ID: Copy + Ord, Value: PoolValue> {
    /// The items involved, and their values: value, min, max.
    pub items: BTreeMap<ID, (Value, Value, Value)>,
    /// Each transaction is an item involved in the transaction and the amount it's being
    /// changed.
    pub transactions: Vec<(ID, Transaction<Value>)>,
    /// All transactions and if they were able to be completed or not: the ID of the pool, or
    /// the ID of the pool that caused the error and a reason.
    pub completed: Vec<Result<ID, (ID, ResourceError)>>,
}

impl<ID: Copy + Ord, Value: PoolValue> QueuedResources<ID, Value> {
    pub fn new() -> (res: Self)
        ensures
            res.items@ == Map::<ID, (Value, Value, Value)>::empty(),
            res.transactions@ == Seq::<(ID, Transaction<Value>)>::empty(),
            res.completed@ == Seq::<Result<ID, (ID, ResourceError)>>::empty(),
    {
        Self { items: BTreeMap::new(), transactions: Vec::new(), completed: Vec::new() }
    }

    /// Updates the values of resources based on the queued transactions, in order. A
    /// transaction that cannot be completed (the pool is missing, or a change or a set would
    /// take the value over its max or under its min) changes nothing and is marked as
    /// incomplete, and the remaining transactions are still processed. The queue is emptied.
    pub fn update(&mut self)
        requires
            id_laws::<ID>(),
        ensures
            (final(self).items@, final(self).completed@) == run_transactions(old(self).items@, old(self).transactions@),
            final(self).transactions@ == Seq::<(ID, Transaction<Value>)>::empty(),
    {
        self.completed.clear();
        let n = self.transactions.len();
        let mut i: usize = 0;
        while i < n
            invariant
                n == self.transactions@.len(),
                self.transactions@ == old(self).transactions@,
                i <= n,
                id_laws::<ID>(),
                (self.items@, self.completed@) == run_transactions(old(self).items@, old(self).transactions@.take(i as int)),
            decreases n - i,
        {
            let (item_type, change) = self.transactions[i];
            let ghost before = self.items@;
            assert(old(self).transactions@.take(i + 1).drop_last() == old(self).transactions@.take(i as int));
            match self.is_possible(&item_type, &change) {
                Err(err) => {
                    self.completed.push(Err(err));
                },
                Ok(()) => {
                    let (val, min, max) = *self.items.get(&item_type).unwrap();
                    let new_vals = match change {
                        Transaction::Change(amt) => {
                            let sum = val.to_wide() + amt.to_wide();
                            proof {
                                min.lemma_value();
                                max.lemma_value();
                                Value::lemma_fits(min.as_int(), max.as_int(), sum as int);
                            }
                            (Value::from_wide(sum), min, max)
                        },
                        Transaction::SetValue(amt) => (amt, min, max),
                        Transaction::SetMax(new_max) => (val, min, new_max),
                        Transaction::SetMin(new_min) => (val, new_min, max),
                    };
                    self.items.insert(item_type, new_vals);
                    self.completed.push(Ok(item_type));
                    assert(self.items@ == apply_transaction(before, item_type, change));
                },
            }
            i = i + 1;
        }
        assert(old(self).transactions@.take(n as int) == old(self).transactions@);
        self.transactions.clear();
    }

    /// Checks if the transaction is possible or not
    fn is_possible(&self, item_type: &ID, transaction: &Transaction<Value>) -> (res: Result<(), (ID, ResourceError)>)
        requires
            id_laws::<ID>(),
        ensures
            res == check_transaction(self.items@, *item_type, *transaction),
    {
        match self.items.get(item_type) {
            Some(vals) => {
                let (value, min, max) = *vals;
                match *transaction {
                    Transaction::Change(amt) => {
                        let sum = value.to_wide() + amt.to_wide();
                        if sum > max.to_wide() {
                            Err((*item_type, ResourceError::TooBig))
                        } else if sum < min.to_wide() {
                            Err((*item_type, ResourceError::TooSmall))
                        } else {
                            Ok(())
                        }
                    },
                    Transaction::SetValue(amt) => {
                        if amt.to_wide() > max.to_wide() {
                            Err((*item_type, ResourceError::TooBig))
                        } else if amt.to_wide() < min.to_wide() {
                            Err((*item_type, ResourceError::TooSmall))
                        } else {
                            Ok(())
                        }
                    },
                    _ => Ok(()),
                }
            },
            None => Err((*item_type, ResourceError::PoolNotFound)),
        }
    }

    /// Gets the value of the item based on its ID.
    pub fn get_value_by_itemtype(&self, item_type: &ID) -> (res: Option<Value>)
        requires
            id_laws::<ID>(),
        ensures
            res == (if self.items@.contains_key(*item_type) {
                Some(self.items@[*item_type].0)
            } else {
                None
            }),
    {
        match self.items.get(item_type) {
            Some(vals) => Some(vals.0),
            None => None,
        }
    }

    /// The value, min and max of pool `ident`.
    pub fn get_synthesis(&self, ident: ID) -> (res: (Value, Value, Value))
        requires
            id_laws::<ID>(),
            self.items@.contains_key(ident),
        ensures
            res == self.items@[ident],
    {
        *self.items.get(&ident).unwrap()
    }

    /// Replaces the value, min and max of pool `ident`, if it exists.
    pub fn update_synthesis(&mut self, ident: ID, data: (Value, Value, Value))
        requires
            id_laws::<ID>(),
        ensures
            final(self).items@ == (if old(self).items@.contains_key(ident) {
                old(self).items@.insert(ident, data)
            } else {
                old(self).items@
            }),
            final(self).transactions@ == old(self).transactions@,
            final(self).completed@ == old(self).completed@,
    {
        if self.items.contains_key(&ident) {
            self.items.insert(ident, data);
        }
    }

    /// Whether the event happened during the last update: `PoolUpdated` if a transaction on
    /// the pool completed, `TransactionUnsuccessful(err)` if one on the pool failed with `err`.
    pub fn check_predicate(&self, event: &ResourceEvent<ID>) -> (res: bool)
        requires
            id_laws::<ID>(),
        ensures
            res == match event.event_type {
                ResourceEventType::PoolUpdated => exists|i: int| 0 <= i < self.completed@.len() && #[trigger] self.completed@[i] == Ok::<ID, (ID, ResourceError)>(event.pool),
                ResourceEventType::TransactionUnsuccessful(rsrc_err) => exists|i: int| 0 <= i < self.completed@.len() && #[trigger] self.completed@[i] == Err::<ID, (ID, ResourceError)>((event.pool, rsrc_err)),
            },
    {
        proof {
            reveal(vstd::laws_eq::obeys_concrete_eq);
        }
        let mut i: usize = 0;
        while i < self.completed.len()
            invariant
                i <= self.completed@.len(),
                id_laws::<ID>(),
                ID::obeys_eq_spec(),
                forall|a: ID, b: ID| a.eq_spec(&b) <==> (a == b),
                match event.event_type {
                    ResourceEventType::PoolUpdated => forall|j: int| 0 <= j < i ==> #[trigger] self.completed@[j] != Ok::<ID, (ID, ResourceError)>(event.pool),
                    ResourceEventType::TransactionUnsuccessful(rsrc_err) => forall|j: int| 0 <= j < i ==> #[trigger] self.completed@[j] != Err::<ID, (ID, ResourceError)>((event.pool, rsrc_err)),
                },
            decreases self.completed@.len() - i,
        {
            let hit = match (&self.completed[i], &event.event_type) {
                (Ok(id), ResourceEventType::PoolUpdated) => *id == event.pool,
                (Err((id, err)), ResourceEventType::TransactionUnsuccessful(rsrc_err)) => *id == event.pool && same_error(err, rsrc_err),
                _ => false,
            };
            if hit {
                return true;
            }
            i = i + 1;
        }
        false
    }
}

/// The two errors are the same.
fn same_error(a: &ResourceError, b: &ResourceError) -> (res: bool)
    ensures
        res == (*a == *b),
{
    match (a, b) {
        (ResourceError::PoolNotFound, ResourceError::PoolNotFound) => true,
        (ResourceError::TooBig, ResourceError::TooBig) => true,
        (ResourceError::TooSmall, ResourceError::TooSmall) => true,
        _ => false,
    }
}

impl<ID: Copy + Ord, Value: PoolValue> Logic for QueuedResources<ID, Value> {
    type Reaction = (ID, Transaction<Value>);

    open spec fn can_handle(&self, reaction: &(ID, Transaction<Value>)) -> bool {
        self.transactions@.len() < usize::MAX
    }

    /// Queues the transaction.
    fn handle_predicate(&mut self, reaction: &(ID, Transaction<Value>))
        ensures
            final(self).transactions@ == old(self).transactions@.push(*reaction),
            final(self).items@ == old(self).items@,
            final(self).completed@ == old(self).completed@,
    {
        self.transactions.push(*reaction);
    }
}

} // verus!
