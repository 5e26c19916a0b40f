//! # Physics logics
//!
//! Physics logics communicate that objects have positions and velocities that change over
//! time.

use vstd::prelude::*;

verus! {

/// What a physics update changed.
#[derive(Debug, PartialEq, Eq, Clone, Copy)]
pub enum PhysicsEvent {
    VelChange,
    PosChange,
}

/// A change to the physics world. Vectors are given by handles: indices into the game's own
/// table of vectors.
#[derive(Debug, PartialEq, Eq, Clone, Copy)]
pub enum PhysicsReaction {
    /// Body, handle of the new position.
    SetPos(usize, usize),
    /// Body, handle of the new velocity.
    SetVel(usize, usize),
    /// Body, handle of the new acceleration.
    SetAcc(usize, usize),
    RemoveBody(usize),
    /// Handles of the new body's position, velocity and acceleration.
    AddBody { pos: usize, vel: usize, acc: usize },
}

/// The entries of a new body, when there are `n` bodies with it: a row of `n` empty entries
/// is added, then every row, the new one too, gets one more empty entry.
pub fn add_body_events(events: &mut Vec<Vec<Option<PhysicsEvent>>>, n: usize)
    requires
        n < usize::MAX,
    ensures
        final(events)@.len() == old(events)@.len() + 1,
        forall|i: int| 0 <= i < old(events)@.len() ==> (#[trigger] final(events)@[i])@ == old(events)@[i]@.push(None),
        final(events)@[old(events)@.len() as int]@ == Seq::new((n + 1) as nat, |j: int| None::<PhysicsEvent>),
{
    let mut row: Vec<Option<PhysicsEvent>> = Vec::new();
    while row.len() < n
        invariant
            row@.len() <= n,
            forall|j: int| 0 <= j < row@.len() ==> (#[trigger] row@[j]) is None,
        decreases n - row@.len(),
    {
        row.push(None);
    }
    events.push(row);
    let ghost mid = events@;
    let mut i: usize = 0;
    while i < events.len()
        invariant
            i <= events@.len(),
            events@.len() == mid.len(),
            mid.len() == old(events)@.len() + 1,
            forall|k: int| 0 <= k < i ==> (#[trigger] events@[k])@ == mid[k]@.push(None),
            forall|k: int| i <= k < mid.len() ==> #[trigger] events@[k] == mid[k],
            forall|k: int| 0 <= k < old(events)@.len() ==> #[trigger] mid[k] == old(events)@[k],
            mid[old(events)@.len() as int]@.len() == n,
            forall|j: int| 0 <= j < n ==> (#[trigger] mid[old(events)@.len() as int]@[j]) is None,
        decreases events@.len() - i,
    {
        events[i].push(None);
        i = i + 1;
    }
    assert(events@[old(events)@.len() as int]@ =~= Seq::new((n + 1) as nat, |j: int| None::<PhysicsEvent>));
}

/// Empties every entry, keeping the size of the table.
pub fn clear_events(events: &mut Vec<Vec<Option<PhysicsEvent>>>)
    ensures
        final(events)@.len() == old(events)@.len(),
        forall|i: int| 0 <= i < old(events)@.len() ==> (#[trigger] final(events)@[i])@ == Seq::new(old(events)@[i]@.len(), |j: int| None::<PhysicsEvent>),
{
    let mut i: usize = 0;
    while i < events.len()
        invariant
            i <= events@.len(),
            events@.len() == old(events)@.len(),
            forall|k: int| 0 <= k < i ==> (#[trigger] events@[k])@ == Seq::new(old(events)@[k]@.len(), |j: int| None::<PhysicsEvent>),
            forall|k: int| i <= k < events@.len() ==> #[trigger] events@[k] == old(events)@[k],
        decreases events@.len() - i,
    {
        let n = events[i].len();
        let mut j: usize = 0;
        let ghost before = events@;
        while j < n
            invariant
                i < events@.len(),
                events@.len() == before.len(),
                n == events@[i as int]@.len(),
                j <= n,
                forall|k: int| 0 <= k < events@.len() && k != i ==> #[trigger] events@[k] == before[k],
                forall|jj: int| 0 <= jj < j ==> (#[trigger] events@[i as int]@[jj]) is None,
            decreases n - j,
        {
            events[i].set(j, None);
            j = j + 1;
        }
        assert(events@[i as int]@ =~= Seq::new(n as nat, |j: int| None::<PhysicsEvent>));
        i = i + 1;
    }
}

/// Removes the row and the column of body `idx`.
pub fn remove_body_events(events: &mut Vec<Vec<Option<PhysicsEvent>>>, idx: usize)
    requires
        idx < old(events)@.len(),
        forall|i: int| 0 <= i < old(events)@.len() && i != idx ==> idx < (#[trigger] old(events)@[i])@.len(),
    ensures
        final(events)@.len() == old(events)@.len() - 1,
        forall|i: int| 0 <= i < final(events)@.len() ==> (#[trigger] final(events)@[i])@ == old(events)@.remove(idx as int)[i]@.remove(idx as int),
{
    events.remove(idx);
    let ghost mid = events@;
    let mut i: usize = 0;
    while i < events.len()
        invariant
            i <= events@.len(),
            events@.len() == mid.len(),
            mid == old(events)@.remove(idx as int),
            forall|k: int| 0 <= k < mid.len() ==> idx < (#[trigger] mid[k])@.len(),
            forall|k: int| 0 <= k < i ==> (#[trigger] events@[k])@ == mid[k]@.remove(idx as int),
            forall|k: int| i <= k < mid.len() ==> #[trigger] events@[k] == mid[k],
        decreases events@.len() - i,
    {
        events[i].remove(idx);
        i = i + 1;
    }
}

} // verus!
