use vstd::prelude::*;
use crate::events::NoteState;

verus! {

/// Number of voice slots the engine gives itself.
pub const VOICE_POOL_SIZE: usize = 256;

/// The first voice at or after `i` that is not sounding.
pub open spec fn first_free_from(voices: Seq<NoteState>, i: nat) -> Option<nat>
    decreases voices.len() - i,
{
    if i >= voices.len() {
        None
    } else if !voices[i as int].is_on {
        Some(i)
    } else {
        first_free_from(voices, i + 1)
    }
}

/// A free slot found from `i` on lies inside the pool.
pub proof fn lemma_first_free_in_range(voices: Seq<NoteState>, i: nat)
    ensures
        first_free_from(voices, i) matches Some(j) ==> i <= j < voices.len() && !voices[j as int].is_on,
    decreases voices.len() - i,
{
    if i < voices.len() && voices[i as int].is_on {
        lemma_first_free_in_range(voices, i + 1);
    }
}

/// The slot that `allocate` takes: the desired one if it exists and is free,
/// else the first free one in index order, else none.
pub open spec fn pick_voice(voices: Seq<NoteState>, desired: int) -> Option<nat> {
    if 0 <= desired < voices.len() && !voices[desired].is_on {
        Some(desired as nat)
    } else {
        first_free_from(voices, 0)
    }
}

/// A pool with a free slot at or after `i` has a first free slot from `i`.
pub proof fn lemma_first_free_exists(voices: Seq<NoteState>, i: nat, j: nat)
    requires
        i <= j < voices.len(),
        !voices[j as int].is_on,
    ensures
        first_free_from(voices, i) is Some,
    decreases j - i,
{
    if voices[i as int].is_on {
        lemma_first_free_exists(voices, i + 1, j);
    }
}

/// The slot `pick_voice` takes lies inside the pool and is free.
pub proof fn lemma_pick_voice_in_range(voices: Seq<NoteState>, desired: int)
    ensures
        pick_voice(voices, desired) matches Some(j) ==> j < voices.len() && !voices[j as int].is_on,
{
    lemma_first_free_in_range(voices, 0);
}

/// The slot `id` once it sounds `key` on `instrument`.
pub open spec fn sounding(id: nat, key: u8, vel: u8, instrument: usize) -> NoteState {
    NoteState { id: id as usize, instrument, key, vel, pitch_bend: 0, is_on: true }
}

/// The slot once it is released; key and velocity stay readable.
pub open spec fn released(v: NoteState) -> NoteState {
    NoteState { is_on: false, ..v }
}

/// The pool has no free slot.
#[derive(Clone, Copy, PartialEq, Eq, Structural, Debug)]
pub enum VoiceError {
    Exhausted,
}

/// A fixed set of voice slots.
pub struct VoicePool {
    pub notes: Vec<NoteState>,
}

impl VoicePool {
    /// `size` silent voices.
    pub fn new(size: usize) -> (p: VoicePool)
        ensures
            p.notes@.len() == size,
            forall|i: int| 0 <= i < size ==> !(#[trigger] p.notes@[i]).is_on,
    {
        let mut notes: Vec<NoteState> = Vec::with_capacity(size);
        let mut i: usize = 0;
        while i < size
            invariant
                i <= size,
                notes@.len() == i,
                forall|k: int| 0 <= k < i ==> !(#[trigger] notes@[k]).is_on,
            decreases size - i,
        {
            notes.push(NoteState { id: 0, instrument: 0, key: 0, vel: 0, pitch_bend: 0, is_on: false });
            i = i + 1;
        }
        VoicePool { notes }
    }

    /// Takes a voice for `key`, preferring `desired`, else the first free
    /// slot; fails when every slot sounds.
    pub fn allocate(&mut self, desired: usize, key: u8, vel: u8, instrument: usize) -> (r: Result<usize, VoiceError>)
        ensures
            match r {
                Ok(id) => {
                    &&& pick_voice(old(self).notes@, desired as int) == Some(id as nat)
                    &&& final(self).notes@ == old(self).notes@.update(id as int, sounding(id as nat, key, vel, instrument))
                },
                Err(e) => {
                    &&& e == VoiceError::Exhausted
                    &&& pick_voice(old(self).notes@, desired as int) is None
                    &&& final(self).notes@ == old(self).notes@
                },
            },
            r matches Ok(id) ==> id < old(self).notes@.len(),
            final(self).notes@.len() == old(self).notes@.len(),
    {
        let len = self.notes.len();
        let mut id: usize = desired;
        if desired >= len || self.notes[desired].is_on {
            let mut i: usize = 0;
            let mut found = false;
            while i < len && !found
                invariant
                    i <= len,
                    len == self.notes@.len(),
                    self.notes@ == old(self).notes@,
                    !(0 <= desired < len && !self.notes@[desired as int].is_on),
                    found ==> id < len && first_free_from(self.notes@, 0) == Some(id as nat),
                    !found ==> first_free_from(self.notes@, 0) == first_free_from(self.notes@, i as nat),
                decreases len - i + if found { 0int } else { 1int },
            {
                if !self.notes[i].is_on {
                    id = i;
                    found = true;
                } else {
                    i = i + 1;
                }
            }
            if !found {
                return Err(VoiceError::Exhausted);
            }
        }
        self.notes.set(id, NoteState { id, instrument, key, vel, pitch_bend: 0, is_on: true });
        Ok(id)
    }

    /// Marks voice `id` silent; its other fields stay as they were.
    pub fn free(&mut self, id: usize)
        requires
            id < old(self).notes@.len(),
        ensures
            final(self).notes@ == old(self).notes@.update(id as int, released(old(self).notes@[id as int])),
    {
        let mut v = self.notes[id];
        v.is_on = false;
        self.notes.set(id, v);
    }
}

/// Freeing a voice makes it the first candidate of the next allocation that
/// asks for it.
pub proof fn lemma_free_then_allocate(voices: Seq<NoteState>, id: int)
    requires
        0 <= id < voices.len(),
    ensures
        pick_voice(voices.update(id, released(voices[id])), id) == Some(id as nat),
{
}

} // verus!
