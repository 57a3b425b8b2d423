//! Frame assembler: groups a stream of samples into analysis frames.
//!
//! Samples arrive in chunks of any size and leave as frames of exactly
//! `frame_size` samples.  The assembler is block-consuming: each frame starts
//! where the one before it ended, so frames never overlap and no sample is
//! ever discarded.  Samples that do not yet fill a frame wait in the backlog;
//! where frames are taken more slowly than samples arrive, the backlog grows.
//!
//! The assembler is generic in the sample type; it only moves samples.

use vstd::prelude::*;

verus! {

/// The samples of `frames`, one frame after the other.
pub open spec fn joined<T>(frames: Seq<Vec<T>>) -> Seq<T>
    decreases frames.len(),
{
    if frames.len() == 0 {
        Seq::empty()
    } else {
        joined(frames.drop_last()) + frames.last()@
    }
}

/// A first-in, first-out backlog of samples that hands them out again in
/// frames of a fixed size.
///
/// Besides the backlog the assembler remembers, for proofs only, every sample
/// it was ever fed and every sample it ever handed out.
pub struct FrameAssembler<T> {
    frame_size: usize,
    backlog: Vec<T>,
    received: Ghost<Seq<T>>,
    emitted: Ghost<Seq<T>>,
}

impl<T> FrameAssembler<T> {
    /// Number of samples in a frame.
    pub closed spec fn spec_frame_size(&self) -> usize {
        self.frame_size
    }

    /// The samples taken in and not yet handed out, oldest first.
    pub closed spec fn backlog(&self) -> Seq<T> {
        self.backlog@
    }

    /// Every sample ever fed to this assembler, in the order of arrival.
    pub closed spec fn received(&self) -> Seq<T> {
        self.received@
    }

    /// The frames ever handed out by this assembler, joined in the order in
    /// which they were handed out.
    pub closed spec fn emitted(&self) -> Seq<T> {
        self.emitted@
    }

    /// The frame size is positive, whole frames were handed out, and what was
    /// handed out, followed by the backlog, is what was received.
    pub closed spec fn wf(&self) -> bool {
        &&& self.frame_size > 0
        &&& self.emitted@.len() % (self.frame_size as nat) == 0
        &&& self.emitted@ + self.backlog@ == self.received@
    }

    /// No sample is lost, repeated or reordered: the frames handed out so far,
    /// joined, followed by the backlog, are exactly the samples received so
    /// far, and only whole frames were handed out.
    pub proof fn law_stream_is_preserved(self)
        requires
            self.wf(),
        ensures
            self.frame_size() > 0,
            self.emitted() + self.backlog() == self.received(),
            self.emitted().len() % (self.frame_size() as nat) == 0,
            self.emitted() == self.received().take(self.emitted().len() as int),
    {
    }

    /// Makes an assembler for frames of `frame_size` samples, with nothing
    /// received yet.
    pub fn new(frame_size: usize) -> (assembler: Self)
        requires
            frame_size > 0,
        ensures
            assembler.wf(),
            assembler.frame_size() == frame_size,
            assembler.backlog() == Seq::<T>::empty(),
            assembler.received() == Seq::<T>::empty(),
            assembler.emitted() == Seq::<T>::empty(),
    {
        let assembler = FrameAssembler {
            frame_size,
            backlog: Vec::new(),
            received: Ghost(Seq::empty()),
            emitted: Ghost(Seq::empty()),
        };
        assert(assembler.emitted@ + assembler.backlog@ =~= assembler.received@);
        assembler
    }

    /// Number of samples in a frame.
    #[verifier::when_used_as_spec(spec_frame_size)]
    pub fn frame_size(&self) -> (size: usize)
        ensures
            size == self.spec_frame_size(),
    {
        self.frame_size
    }

    /// Number of samples waiting in the backlog.
    pub fn backlog_len(&self) -> (len: usize)
        ensures
            len == self.backlog().len(),
    {
        self.backlog.len()
    }

    /// Removes and returns the oldest `frame_size` samples if the backlog
    /// holds that many; otherwise returns nothing and changes nothing.
    pub fn try_take_frame(&mut self) -> (frame: Option<Vec<T>>)
        requires
            old(self).wf(),
        ensures
            final(self).wf(),
            final(self).frame_size() == old(self).frame_size(),
            final(self).received() == old(self).received(),
            frame is Some <==> old(self).backlog().len() >= old(self).frame_size(),
            frame matches Some(samples) ==> {
                &&& samples@.len() == old(self).frame_size()
                &&& samples@ == old(self).backlog().take(old(self).frame_size() as int)
                &&& final(self).backlog() == old(self).backlog().skip(
                    old(self).frame_size() as int,
                )
                &&& final(self).emitted() == old(self).emitted() + samples@
            },
            frame is None ==> {
                &&& final(self).backlog() == old(self).backlog()
                &&& final(self).emitted() == old(self).emitted()
            },
    {
        if self.backlog.len() < self.frame_size {
            return None;
        }
        let mut frame: Vec<T> = self.backlog.split_off(self.frame_size);
        core::mem::swap(&mut self.backlog, &mut frame);
        proof {
            let size = self.frame_size as int;
            let before = old(self).backlog@;
            assert((old(self).emitted@ + frame@) + self.backlog@ =~= old(self).emitted@ + before);
            vstd::arithmetic::div_mod::lemma_mod_add_multiples_vanish(
                old(self).emitted@.len() as int,
                size,
            );
        }
        self.emitted = Ghost(self.emitted@ + frame@);
        Some(frame)
    }

    /// Takes every whole frame out of the backlog, oldest first, until fewer
    /// than `frame_size` samples are left.
    pub fn drain_frames(&mut self) -> (frames: Vec<Vec<T>>)
        requires
            old(self).wf(),
        ensures
            final(self).wf(),
            final(self).frame_size() == old(self).frame_size(),
            final(self).received() == old(self).received(),
            frames@.len() == old(self).backlog().len() / (old(self).frame_size() as nat),
            forall|k: int|
                0 <= k < frames@.len() ==> (#[trigger] frames@[k])@.len() == old(self).frame_size(),
            forall|k: int|
                0 <= k < frames@.len() ==> (#[trigger] frames@[k])@ == old(self).backlog().subrange(
                    k * old(self).frame_size(),
                    (k + 1) * old(self).frame_size(),
                ),
            joined(frames@) == old(self).backlog().take(
                (frames@.len() * old(self).frame_size()) as int,
            ),
            final(self).backlog() == old(self).backlog().skip(
                (frames@.len() * old(self).frame_size()) as int,
            ),
            final(self).backlog().len() == old(self).backlog().len() % (old(self).frame_size() as nat),
            final(self).emitted() == old(self).emitted() + joined(frames@),
    {
        let ghost size = self.frame_size as int;
        let ghost before = self.backlog@;
        let mut frames: Vec<Vec<T>> = Vec::new();
        assert(self.emitted@ + joined(frames@) =~= self.emitted@);
        loop
            invariant_except_break
                self.wf(),
            invariant
                size == old(self).frame_size,
                before == old(self).backlog@,
                self.frame_size == old(self).frame_size,
                size > 0,
                self.received@ == old(self).received@,
                frames@.len() * size <= before.len(),
                self.backlog@ == before.skip(frames@.len() * size),
                joined(frames@) == before.take(frames@.len() * size),
                self.emitted@ == old(self).emitted@ + joined(frames@),
                forall|k: int| 0 <= k < frames@.len() ==> (#[trigger] frames@[k])@.len() == size,
                forall|k: int|
                    0 <= k < frames@.len() ==> (#[trigger] frames@[k])@ == before.subrange(
                        k * size,
                        (k + 1) * size,
                    ),
            ensures
                self.wf(),
                self.backlog@.len() < size,
            decreases self.backlog@.len(),
        {
            let ghost count = frames@.len() as int;
            let ghost held = frames@;
            let next = self.try_take_frame();
            match next {
                Some(frame) => {
                    proof {
                        assert((count + 1) * size == count * size + size) by (nonlinear_arith);
                        assert(held.push(frame).drop_last() =~= held);
                        assert(before.take(count * size) + frame@ =~= before.take(
                            (count + 1) * size,
                        ));
                        assert((old(self).emitted@ + joined(held)) + frame@ =~= old(self).emitted@
                            + (joined(held) + frame@));
                    }
                    frames.push(frame);
                },
                None => {
                    break ;
                },
            }
        }
        proof {
            let count = frames@.len() as int;
            vstd::arithmetic::div_mod::lemma_fundamental_div_mod_converse(
                before.len() as int,
                size,
                count,
                before.len() - count * size,
            );
        }
        frames
    }
}

impl<T: Copy> FrameAssembler<T> {
    /// Appends `samples` to the backlog, in order.
    pub fn feed(&mut self, samples: &[T])
        requires
            old(self).wf(),
        ensures
            final(self).wf(),
            final(self).frame_size() == old(self).frame_size(),
            final(self).backlog() == old(self).backlog() + samples@,
            final(self).received() == old(self).received() + samples@,
            final(self).emitted() == old(self).emitted(),
    {
        let count: usize = samples.len();
        let mut i: usize = 0;
        while i < count
            invariant
                i <= count,
                count == samples@.len(),
                self.frame_size == old(self).frame_size,
                self.emitted@ == old(self).emitted@,
                self.received@ == old(self).received@,
                self.backlog@ == old(self).backlog@ + samples@.take(i as int),
            decreases count - i,
        {
            self.backlog.push(samples[i]);
            i += 1;
        }
        proof {
            assert(samples@.take(count as int) =~= samples@);
            assert(old(self).emitted@ + (old(self).backlog@ + samples@) =~= (old(self).emitted@ + old(
                self,
            ).backlog@) + samples@);
        }
        self.received = Ghost(self.received@ + samples@);
    }
}

} // verus!
