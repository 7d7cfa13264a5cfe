//! Progressive accumulation between render calls: how many frames the
//! running average already holds, and the restart when the camera moves.
use vstd::prelude::*;

verus! {

/// Frame counter of the running average kept in the accumulation buffer.
///
/// A render call blends its samples into the buffer as
/// `old * frames / (frames + 1) + sample / (frames + 1)`, where `frames` is
/// what [`Progress::begin_frame`] returned.
pub struct Progress {
    frames: u32,
}

impl Progress {
    /// Frames already averaged into the buffer.
    pub closed spec fn spec_frames(&self) -> nat {
        self.frames as nat
    }

    /// Nothing accumulated yet.
    pub fn new() -> (r: Progress)
        ensures
            r.spec_frames() == 0,
    {
        Progress { frames: 0 }
    }

    /// Frames already averaged into the buffer.
    pub fn frames(&self) -> (r: u32)
        ensures
            r == self.spec_frames(),
    {
        self.frames
    }

    /// Top of a render call. When the camera moved since the previous call,
    /// the average restarts: the counter goes back to zero and every sample
    /// of the buffer is set to `zero`, so nothing of the old view is blended
    /// into the new one. Otherwise nothing changes. Returns the frame count
    /// that this call blends with.
    pub fn begin_frame<T: Copy>(&mut self, camera_moved: bool, samples: &mut Vec<T>, zero: T) -> (r:
        u32)
        ensures
            r == final(self).spec_frames(),
            camera_moved ==> final(self).spec_frames() == 0,
            camera_moved ==> final(samples)@ == Seq::new(old(samples)@.len(), |i: int| zero),
            !camera_moved ==> final(self).spec_frames() == old(self).spec_frames(),
            !camera_moved ==> final(samples)@ == old(samples)@,
    {
        if camera_moved {
            self.frames = 0;
            clear_samples(samples, zero);
        }
        self.frames
    }

    /// End of a render call: one more frame is in the average. The counter
    /// stops at `u32::MAX`.
    pub fn end_frame(&mut self)
        ensures
            final(self).spec_frames() == if old(self).spec_frames() < u32::MAX {
                old(self).spec_frames() + 1
            } else {
                old(self).spec_frames()
            },
    {
        self.frames = self.frames.saturating_add(1);
    }
}

/// Sets every sample to `zero`, keeping the length.
pub fn clear_samples<T: Copy>(samples: &mut Vec<T>, zero: T)
    ensures
        final(samples)@ == Seq::new(old(samples)@.len(), |i: int| zero),
{
    let len = samples.len();
    let mut i: usize = 0;
    while i < len
        invariant
            samples@.len() == len,
            len == old(samples)@.len(),
            i <= len,
            forall|j: int| 0 <= j < i ==> samples@[j] == zero,
        decreases len - i,
    {
        samples.set(i, zero);
        i = i + 1;
    }
    assert(samples@ =~= Seq::new(old(samples)@.len(), |i: int| zero));
}

} // verus!
