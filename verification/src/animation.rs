//! # Animation
//!
//! Animation handles the sprites and images to be rendered. An entity is a set of sequences
//! of sprites; each frame the entity shows the current sprite of its most urgent active
//! sequence (the lowest priority number), or of its default sequence, and moves that sequence
//! on.

use vstd::prelude::*;

verus! {

/// The top corner x and y position and the width and height of a rectangle.
#[derive(Clone, Copy, Debug)]
pub struct Rectangle {
    pub x: u64,
    pub y: u64,
    pub w: u64,
    pub h: u64,
}

/// A width and height.
#[derive(Clone, Copy, Debug)]
pub struct Size {
    pub w: u64,
    pub h: u64,
}

/// Where an image lies in a larger sprite sheet.
#[derive(Clone, Copy, Debug)]
pub struct Sprite {
    /// order in sequence
    pub index: usize,
    /// the specific location it takes in the spritesheet
    pub frame: Rectangle,
    pub trimmed: bool,
    /// the size of the image
    pub size: Size,
}

/// A series of sprites that can be played together in order to create an animation.
pub struct Sequence {
    pub seq_name: String,
    /// the sequence moves to its next sprite on the frames whose count this divides
    pub frame_rate: u64,
    /// the sequence starts over when it ends, rather than becoming inactive
    pub is_cycle: bool,
    /// the sequence has been activated by events in the game and needs to be played
    pub is_active: bool,
    /// among active sequences, the lowest priority takes precedence
    pub priority: u64,
    /// index of the current sprite
    pub current: usize,
    /// the sequence holds certain game events until it finishes
    pub pause: bool,
    pub sprites: Vec<Sprite>,
}

/// The sequences that represent one figure of the game.
pub struct Entity {
    pub name: String,
    /// order of entity in sheet
    pub sheet_index: usize,
    /// the sequence that plays when no other sequence is active
    pub default_seq: usize,
    pub seqs: Vec<Sequence>,
}

/// `new` is `old` moved on at frame `frames_drawn`: on the frames whose count the frame rate
/// divides the sequence goes to its next sprite, and past the last one back to the first,
/// where it stops being active unless it cycles; every other field is kept.
pub open spec fn progressed(old: Sequence, new: Sequence, frames_drawn: u64) -> bool {
    &&& new.seq_name@ == old.seq_name@
    &&& new.frame_rate == old.frame_rate
    &&& new.is_cycle == old.is_cycle
    &&& new.priority == old.priority
    &&& new.pause == old.pause
    &&& new.sprites@ == old.sprites@
    &&& if frames_drawn % old.frame_rate == 0 {
        if old.current + 1 >= old.sprites@.len() {
            &&& new.current == 0
            &&& new.is_active == (old.is_active && old.is_cycle)
        } else {
            &&& new.current == old.current + 1
            &&& new.is_active == old.is_active
        }
    } else {
        &&& new.current == old.current
        &&& new.is_active == old.is_active
    }
}

/// Moving a sequence on never activates it; a cycling sequence never stops by itself; and the
/// current sprite stays one of the sequence's sprites.
pub proof fn law_progress_never_activates(old: Sequence, new: Sequence, frames_drawn: u64)
    requires
        old.frame_rate > 0,
        old.current < old.sprites@.len(),
        progressed(old, new, frames_drawn),
    ensures
        new.is_active ==> old.is_active,
        old.is_cycle ==> new.is_active == old.is_active,
        new.current < new.sprites@.len(),
{
}

impl Sequence {
    /// The current sprite.
    pub fn cur_sprite(&self) -> (res: Sprite)
        requires
            self.current < self.sprites@.len(),
        ensures
            res == self.sprites@[self.current as int],
    {
        self.sprites[self.current]
    }

    /// Moves the sequence on to its next sprite on the frames whose count its frame rate
    /// divides; past the last sprite it goes back to the first, and stops being active unless
    /// it cycles. Returns whether it is still active.
    pub fn progress_seq(&mut self, frames_drawn: u64) -> (res: bool)
        requires
            old(self).frame_rate > 0,
            old(self).current < usize::MAX,
        ensures
            res == final(self).is_active,
            progressed(*old(self), *final(self), frames_drawn),
    {
        if frames_drawn % self.frame_rate == 0 {
            self.current = self.current + 1;
            if self.current >= self.sprites.len() {
                self.current = 0;
                if !self.is_cycle {
                    self.is_active = false;
                }
            }
        }
        self.is_active
    }
}

impl Entity {
    /// The sequence to draw: the first active sequence of the lowest priority, where that is
    /// lower than the default sequence's priority; otherwise the default sequence.
    pub fn draw_seq(&self) -> (res: usize)
        requires
            self.default_seq < self.seqs@.len(),
        ensures
            res < self.seqs@.len(),
            res == self.default_seq || (self.seqs@[res as int].is_active
                && self.seqs@[res as int].priority < self.seqs@[self.default_seq as int].priority),
            forall|i: int| 0 <= i < self.seqs@.len() && (#[trigger] self.seqs@[i]).is_active
                ==> self.seqs@[i].priority >= self.seqs@[res as int].priority,
            res != self.default_seq ==> forall|i: int| 0 <= i < res && (#[trigger] self.seqs@[i]).is_active
                ==> self.seqs@[i].priority > self.seqs@[res as int].priority,
    {
        let mut cur_index = self.default_seq;
        let mut cur_priority = self.seqs[cur_index].priority;
        let mut i: usize = 0;
        while i < self.seqs.len()
            invariant
                self.default_seq < self.seqs@.len(),
                i <= self.seqs@.len(),
                cur_index < self.seqs@.len(),
                cur_priority == self.seqs@[cur_index as int].priority,
                cur_index == self.default_seq || (self.seqs@[cur_index as int].is_active
                    && cur_priority < self.seqs@[self.default_seq as int].priority),
                cur_index != self.default_seq ==> cur_index < i,
                forall|k: int| 0 <= k < i && (#[trigger] self.seqs@[k]).is_active ==> self.seqs@[k].priority >= cur_priority,
                cur_index != self.default_seq ==> forall|k: int| 0 <= k < cur_index && (#[trigger] self.seqs@[k]).is_active
                    ==> self.seqs@[k].priority > cur_priority,
            decreases self.seqs@.len() - i,
        {
            if self.seqs[i].is_active && self.seqs[i].priority < cur_priority {
                cur_priority = self.seqs[i].priority;
                cur_index = i;
            }
            i = i + 1;
        }
        cur_index
    }

    /// After sequence `cur_index` was drawn: if it is active it moves on; while it stays
    /// active the object is paused as the sequence says, and when a pausing sequence ends the
    /// object is unpaused. Returns whether the object is paused.
    pub fn after_draw(&mut self, cur_index: usize, paused: bool, frames_drawn: u64) -> (res: bool)
        requires
            cur_index < old(self).seqs@.len(),
            old(self).seqs@[cur_index as int].frame_rate > 0,
            old(self).seqs@[cur_index as int].current < usize::MAX,
        ensures
            final(self).seqs@.len() == old(self).seqs@.len(),
            final(self).default_seq == old(self).default_seq,
            forall|i: int| 0 <= i < old(self).seqs@.len() && i != cur_index ==> #[trigger] final(self).seqs@[i] == old(self).seqs@[i],
            !old(self).seqs@[cur_index as int].is_active ==> {
                &&& final(self).seqs@[cur_index as int] == old(self).seqs@[cur_index as int]
                &&& res == paused
            },
            old(self).seqs@[cur_index as int].is_active ==> {
                let s = final(self).seqs@[cur_index as int];
                &&& progressed(old(self).seqs@[cur_index as int], s, frames_drawn)
                &&& res == if s.is_active { s.pause } else if s.pause { false } else { paused }
            },
    {
        let mut paused = paused;
        if self.seqs[cur_index].is_active {
            let still_active = self.seqs[cur_index].progress_seq(frames_drawn);
            let pause = self.seqs[cur_index].pause;
            if still_active {
                paused = pause;
            } else if pause {
                paused = false;
            }
        }
        paused
    }

    /// Sets whether every sequence named `seq_name` is active.
    pub fn set_seqs_active(&mut self, seq_name: &str, active: bool)
        ensures
            final(self).seqs@.len() == old(self).seqs@.len(),
            final(self).default_seq == old(self).default_seq,
            forall|i: int| 0 <= i < old(self).seqs@.len() ==> {
                let s = #[trigger] final(self).seqs@[i];
                let o = old(self).seqs@[i];
                &&& s.is_active == if o.seq_name@ == seq_name@ { active } else { o.is_active }
                &&& s.seq_name@ == o.seq_name@
                &&& s.frame_rate == o.frame_rate
                &&& s.is_cycle == o.is_cycle
                &&& s.priority == o.priority
                &&& s.current == o.current
                &&& s.pause == o.pause
                &&& s.sprites@ == o.sprites@
            },
    {
        let name = seq_name.to_owned();
        let n = self.seqs.len();
        let mut i: usize = 0;
        while i < n
            invariant
                n == self.seqs@.len(),
                n == old(self).seqs@.len(),
                i <= n,
                name@ == seq_name@,
                self.default_seq == old(self).default_seq,
                forall|k: int| i <= k < n ==> #[trigger] self.seqs@[k] == old(self).seqs@[k],
                forall|k: int| 0 <= k < i ==> {
                    let s = #[trigger] self.seqs@[k];
                    let o = old(self).seqs@[k];
                    &&& s.is_active == if o.seq_name@ == seq_name@ { active } else { o.is_active }
                    &&& s.seq_name@ == o.seq_name@
                    &&& s.frame_rate == o.frame_rate
                    &&& s.is_cycle == o.is_cycle
                    &&& s.priority == o.priority
                    &&& s.current == o.current
                    &&& s.pause == o.pause
                    &&& s.sprites@ == o.sprites@
                },
            decreases n - i,
        {
            if self.seqs[i].seq_name == name {
                self.seqs[i].is_active = active;
            }
            i = i + 1;
        }
    }

    /// Sets whether sequence `seq_index` is active.
    pub fn set_seq_active(&mut self, seq_index: usize, active: bool)
        requires
            seq_index < old(self).seqs@.len(),
        ensures
            final(self).seqs@.len() == old(self).seqs@.len(),
            final(self).default_seq == old(self).default_seq,
            forall|i: int| 0 <= i < old(self).seqs@.len() && i != seq_index ==> #[trigger] final(self).seqs@[i] == old(self).seqs@[i],
            final(self).seqs@[seq_index as int].is_active == active,
            final(self).seqs@[seq_index as int].current == old(self).seqs@[seq_index as int].current,
            final(self).seqs@[seq_index as int].priority == old(self).seqs@[seq_index as int].priority,
            final(self).seqs@[seq_index as int].sprites@ == old(self).seqs@[seq_index as int].sprites@,
    {
        self.seqs[seq_index].is_active = active;
    }
}

/// The frame count after one more frame: it goes back to 0 after the largest count.
pub fn next_frame_count(frames_drawn: u64) -> (res: u64)
    ensures
        res == if frames_drawn < u64::MAX { frames_drawn + 1 } else { 0 },
{
    if frames_drawn < u64::MAX {
        frames_drawn + 1
    } else {
        0
    }
}

} // verus!
