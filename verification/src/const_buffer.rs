//! An owned buffer with a channel count fixed at compile time.
//!
//! Only the functions that make the buffer allocate. Every channel at once is
//! handed out as an array of slices.

use vstd::prelude::*;
use crate::const_buffer_ref::{ChannelBufferRef, ChannelBufferRefMut};
use crate::planar::{all_default, Planar};
use crate::slicing::{
    clamp_length, clamp_range, clear_leading, default_region, fill_default, span, span_mut, start_array,
    window_array_at, window_array_mut,
};
use core::ops::Range;

verus! {

/// A planar buffer that owns its region, with `CHANNELS` channels.
///
/// The region is exactly `CHANNELS * frames` samples. The start of every
/// channel is kept in a table that is computed when the region is made.
#[derive(Debug)]
pub struct ChannelBuffer<T: Clone + Copy + Default, const CHANNELS: usize> {
    data: Vec<T>,
    offsets: [usize; CHANNELS],
    frames: usize,
}

impl<T: Clone + Copy + Default, const CHANNELS: usize> View for ChannelBuffer<T, CHANNELS> {
    type V = Planar<T>;

    closed spec fn view(&self) -> Planar<T> {
        Planar { raw: self.data@, channels: CHANNELS as nat, frames: self.frames as nat }
    }
}

impl<T: Clone + Copy + Default, const CHANNELS: usize> ChannelBuffer<T, CHANNELS> {
    /// The region holds the channels and nothing else, and the table holds
    /// the start of every channel.
    pub closed spec fn wf(&self) -> bool {
        &&& self.data@.len() == CHANNELS * self.frames
        &&& forall|c: int| 0 <= c < CHANNELS ==> #[trigger] self.offsets@[c] == c * self.frames
    }

    /// A well-formed buffer reads `CHANNELS` channels that fill its region.
    pub proof fn lemma_wf(&self)
        requires
            self.wf(),
        ensures
            self@.channels == CHANNELS,
            self@.exact(),
            self@.frames <= usize::MAX,
            self@.raw.len() <= usize::MAX,
    {
        assert(self.data@.len() == self.data.len());
    }

    /// A buffer of no samples, with nothing allocated.
    pub fn empty() -> (out: Self)
        ensures
            out.wf(),
            out@ == Planar::of(Seq::<T>::empty(), CHANNELS as nat, 0),
    {
        let data: Vec<T> = Vec::new();
        ChannelBuffer { data, offsets: start_array(0), frames: 0 }
    }

    /// A buffer of `frames` frames in every channel, each sample the default
    /// value.
    pub fn new(frames: usize) -> (out: Self)
        requires
            CHANNELS * frames <= usize::MAX,
        ensures
            out.wf(),
            out@.channels == CHANNELS,
            out@.frames == frames,
            out@.raw.len() == CHANNELS * frames,
            all_default(out@.raw),
    {
        let data = default_region(CHANNELS * frames);
        ChannelBuffer { data, offsets: start_array(frames), frames }
    }

    /// A buffer of `frames` frames in every channel, of which the samples are
    /// left for the caller to write: nothing is promised of what they hold.
    pub fn new_uninit(frames: usize) -> (out: Self)
        requires
            CHANNELS * frames <= usize::MAX,
        ensures
            out.wf(),
            out@.channels == CHANNELS,
            out@.frames == frames,
            out@.raw.len() == CHANNELS * frames,
    {
        Self::new(frames)
    }

    /// The number of channels.
    pub fn channels(&self) -> (channels: usize)
        ensures
            channels == CHANNELS,
            channels == self@.channels,
    {
        CHANNELS
    }

    /// The number of frames in every channel.
    pub fn frames(&self) -> (frames: usize)
        ensures
            frames == self@.frames,
    {
        self.frames
    }

    /// Channel `index`, or `None` where there is no such channel.
    pub fn channel(&self, index: usize) -> (out: Option<&[T]>)
        requires
            self.wf(),
        ensures
            (match out {
                Some(channel) => {
                    &&& index < CHANNELS
                    &&& channel@ == self@.channel(index as int)
                    &&& channel@.len() == self@.frames
                },
                None => index >= CHANNELS,
            }),
    {
        if index < CHANNELS {
            Some(self.channel_unchecked(index))
        } else {
            None
        }
    }

    /// Channel `index`, which the caller knows to exist.
    pub fn channel_unchecked(&self, index: usize) -> (out: &[T])
        requires
            self.wf(),
            index < CHANNELS,
        ensures
            out@ == self@.channel(index as int),
            out@.len() == self@.frames,
    {
        proof {
            self.lemma_starts_fit();
        }
        span(self.data.as_slice(), self.offsets[index], self.frames)
    }

    /// Channel `index` for writing, or `None` where there is no such channel.
    /// What is written to the slice is written to that channel, and to
    /// nothing else.
    pub fn channel_mut(&mut self, index: usize) -> (out: Option<&mut [T]>)
        requires
            old(self).wf(),
        ensures
            (match out {
                Some(channel) => {
                    &&& index < CHANNELS
                    &&& channel@ == old(self)@.channel(index as int)
                    &&& channel@.len() == old(self)@.frames
                    &&& final(self)@ == old(self)@.with_window(
                        index as int,
                        0,
                        old(self)@.frames as int,
                        final(channel)@,
                    )
                    &&& final(channel)@.len() == channel@.len() ==> final(self).wf()
                },
                None => index >= CHANNELS && final(self)@ == old(self)@ && final(self).wf(),
            }),
    {
        if index < CHANNELS {
            Some(self.channel_unchecked_mut(index))
        } else {
            None
        }
    }

    /// Channel `index`, which the caller knows to exist, for writing. What is
    /// written to the slice is written to that channel, and to nothing else.
    pub fn channel_unchecked_mut(&mut self, index: usize) -> (out: &mut [T])
        requires
            old(self).wf(),
            index < CHANNELS,
        ensures
            out@ == old(self)@.channel(index as int),
            out@.len() == old(self)@.frames,
            final(self)@ == old(self)@.with_window(
                index as int,
                0,
                old(self)@.frames as int,
                final(out)@,
            ),
            final(out)@.len() == out@.len() ==> final(self).wf(),
    {
        proof {
            self.lemma_starts_fit();
        }
        let lo = self.offsets[index];
        span_mut(self.data.as_mut_slice(), lo, self.frames)
    }

    /// Every channel, in channel order.
    pub fn as_slices(&self) -> (out: [&[T]; CHANNELS])
        requires
            self.wf(),
        ensures
            forall|c: int|
                #![trigger out@[c]]
                0 <= c < CHANNELS ==> ({
                    &&& out@[c]@ == self@.channel(c)
                    &&& out@[c]@.len() == self@.frames
                }),
    {
        self.windows(0, self.frames)
    }

    /// Every channel for writing, in channel order. No two of the slices
    /// share a sample: what is written to one is written to its channel, and
    /// to nothing else.
    pub fn as_mut_slices(&mut self) -> (out: [&mut [T]; CHANNELS])
        requires
            old(self).wf(),
        ensures
            forall|c: int|
                #![trigger out@[c]]
                0 <= c < CHANNELS ==> ({
                    &&& out@[c]@ == old(self)@.channel(c)
                    &&& out@[c]@.len() == old(self)@.frames
                }),
            final(self)@ == old(self)@.with_windows(
                0,
                old(self)@.frames as int,
                out@.map_values(|s: &mut [T]| final(s)@),
            ),
            old(self)@.parts_fit(
                old(self)@.frames as int,
                out@.map_values(|s: &mut [T]| final(s)@),
            ) ==> final(self).wf(),
    {
        let frames = self.frames;
        self.windows_mut(0, frames)
    }

    /// The first `frames` frames of every channel, or the whole channel where
    /// it holds fewer.
    pub fn as_slices_with_length(&self, frames: usize) -> (out: [&[T]; CHANNELS])
        requires
            self.wf(),
        ensures
            forall|c: int|
                #![trigger out@[c]]
                0 <= c < CHANNELS ==> ({
                    &&& out@[c]@ == self@.window(c, 0, self@.clamp(frames as int))
                    &&& out@[c]@.len() == self@.clamp(frames as int)
                }),
    {
        let len = clamp_length(frames, self.frames);
        self.windows(0, len)
    }

    /// The first `frames` frames of every channel for writing, or the whole
    /// channel where it holds fewer. The later frames stay as they are.
    pub fn as_mut_slices_with_length(&mut self, frames: usize) -> (out: [&mut [T]; CHANNELS])
        requires
            old(self).wf(),
        ensures
            forall|c: int|
                #![trigger out@[c]]
                0 <= c < CHANNELS ==> ({
                    &&& out@[c]@ == old(self)@.window(c, 0, old(self)@.clamp(frames as int))
                    &&& out@[c]@.len() == old(self)@.clamp(frames as int)
                }),
            final(self)@ == old(self)@.with_windows(
                0,
                old(self)@.clamp(frames as int),
                out@.map_values(|s: &mut [T]| final(s)@),
            ),
            old(self)@.parts_fit(
                old(self)@.clamp(frames as int),
                out@.map_values(|s: &mut [T]| final(s)@),
            ) ==> final(self).wf(),
    {
        let len = clamp_length(frames, self.frames);
        self.windows_mut(0, len)
    }

    /// The frames `range` of every channel, as far as the channel holds them.
    pub fn as_slices_with_range(&self, range: Range<usize>) -> (out: [&[T]; CHANNELS])
        requires
            self.wf(),
        ensures
            forall|c: int|
                #![trigger out@[c]]
                0 <= c < CHANNELS ==> ({
                    &&& out@[c]@ == self@.window(
                        c,
                        self@.clamp(range.start as int),
                        self@.clamp_span(range.start as int, range.end as int),
                    )
                    &&& out@[c]@.len() == self@.clamp_span(range.start as int, range.end as int)
                }),
    {
        let (first, len) = clamp_range(range, self.frames);
        self.windows(first, len)
    }

    /// The frames `range` of every channel for writing, as far as the channel
    /// holds them. The frames outside the range stay as they are.
    pub fn as_mut_slices_with_range(&mut self, range: Range<usize>) -> (out: [&mut [T]; CHANNELS])
        requires
            old(self).wf(),
        ensures
            forall|c: int|
                #![trigger out@[c]]
                0 <= c < CHANNELS ==> ({
                    &&& out@[c]@ == old(self)@.window(
                        c,
                        old(self)@.clamp(range.start as int),
                        old(self)@.clamp_span(range.start as int, range.end as int),
                    )
                    &&& out@[c]@.len() == old(self)@.clamp_span(range.start as int, range.end as int)
                }),
            final(self)@ == old(self)@.with_windows(
                old(self)@.clamp(range.start as int),
                old(self)@.clamp_span(range.start as int, range.end as int),
                out@.map_values(|s: &mut [T]| final(s)@),
            ),
            old(self)@.parts_fit(
                old(self)@.clamp_span(range.start as int, range.end as int),
                out@.map_values(|s: &mut [T]| final(s)@),
            ) ==> final(self).wf(),
    {
        let (first, len) = clamp_range(range, self.frames);
        self.windows_mut(first, len)
    }

    /// The whole region.
    pub fn raw(&self) -> (out: &[T])
        ensures
            out@ == self@.raw,
    {
        self.data.as_slice()
    }

    /// The whole region, for writing.
    pub fn raw_mut(&mut self) -> (out: &mut [T])
        ensures
            out@ == old(self)@.raw,
            final(self)@ == old(self)@.with_raw(final(out)@),
            old(self).wf() && final(out)@.len() == out@.len() ==> final(self).wf(),
    {
        self.data.as_mut_slice()
    }

    /// Overwrites every sample with the default value.
    pub fn clear(&mut self)
        ensures
            final(self)@.channels == old(self)@.channels,
            final(self)@.frames == old(self)@.frames,
            final(self)@.raw.len() == old(self)@.raw.len(),
            all_default(final(self)@.raw),
            old(self).wf() ==> final(self).wf(),
    {
        let len = self.data.len();
        fill_default(self.data.as_mut_slice(), 0, len);
        proof {
            assert(self.data@.subrange(0, len as int) =~= self.data@);
        }
    }

    /// Overwrites the first `frames` frames of every channel with the default
    /// value, or the whole channel where it holds fewer. The later frames of
    /// each channel stay as they are.
    pub fn clear_frames(&mut self, frames: usize)
        requires
            old(self).wf(),
        ensures
            final(self).wf(),
            old(self)@.cleared(old(self)@.clamp(frames as int), final(self)@),
    {
        let len = clamp_length(frames, self.frames);
        clear_leading(self.data.as_mut_slice(), CHANNELS, self.frames, len);
    }

    /// A read-only view of the buffer.
    pub fn as_ref<'a>(&'a self) -> (out: ChannelBufferRef<'a, T, CHANNELS>)
        requires
            self.wf(),
        ensures
            out.wf(),
            out@ == self@,
    {
        ChannelBufferRef::new_unchecked(self.data.as_slice(), self.frames)
    }

    /// A view of the buffer for reading and writing. What is written through
    /// the view is written to the buffer.
    pub fn as_mut<'a>(&'a mut self) -> (out: ChannelBufferRefMut<'a, T, CHANNELS>)
        requires
            old(self).wf(),
        ensures
            out.wf(),
            out@ == old(self)@,
            final(self)@ == old(self)@.with_raw(final(out.source())@),
            final(out.source())@.len() == old(self)@.raw.len() ==> final(self).wf(),
    {
        let frames = self.frames;
        ChannelBufferRefMut::new_unchecked(self.data.as_mut_slice(), frames)
    }

    /// The region, given up by the buffer.
    pub fn into_vec(self) -> (out: Vec<T>)
        ensures
            out@ == self@.raw,
    {
        self.data
    }

    /// In a well-formed buffer every channel lies within the region, from the
    /// start that the table holds for it.
    proof fn lemma_starts_fit(&self)
        requires
            self.wf(),
        ensures
            forall|c: int|
                0 <= c < CHANNELS ==> #[trigger] self.offsets@[c] + self.frames <= self.data@.len(),
            forall|c: int| 0 <= c < CHANNELS ==> #[trigger] self.offsets@[c] == self@.start(c),
    {
        assert forall|c: int| 0 <= c < CHANNELS implies #[trigger] self.offsets@[c] + self.frames
            <= self.data@.len() by {
            assert(c * self.frames + self.frames <= CHANNELS * self.frames) by (nonlinear_arith)
                requires
                    0 <= c < CHANNELS,
            ;
        }
    }

    fn windows(&self, first: usize, len: usize) -> (out: [&[T]; CHANNELS])
        requires
            self.wf(),
            first + len <= self.frames,
        ensures
            forall|c: int|
                #![trigger out@[c]]
                0 <= c < CHANNELS ==> ({
                    &&& out@[c]@ == self@.window(c, first as int, len as int)
                    &&& out@[c]@.len() == len
                }),
    {
        proof {
            self.lemma_starts_fit();
        }
        window_array_at(self.data.as_slice(), &self.offsets, first, len)
    }

    fn windows_mut(&mut self, first: usize, len: usize) -> (out: [&mut [T]; CHANNELS])
        requires
            old(self).wf(),
            first + len <= old(self)@.frames,
        ensures
            forall|c: int|
                #![trigger out@[c]]
                0 <= c < CHANNELS ==> ({
                    &&& out@[c]@ == old(self)@.window(c, first as int, len as int)
                    &&& out@[c]@.len() == len
                }),
            final(self)@ == old(self)@.with_windows(
                first as int,
                len as int,
                out@.map_values(|s: &mut [T]| final(s)@),
            ),
            old(self)@.parts_fit(len as int, out@.map_values(|s: &mut [T]| final(s)@))
                ==> final(self).wf(),
    {
        proof {
            assert forall|parts: Seq<Seq<T>>| self@.parts_fit(len as int, parts) implies (
            #[trigger] self@.with_windows(first as int, len as int, parts)).raw.len()
                == self@.raw.len() by {
                self@.lemma_with_windows(first as int, len as int, parts);
            }
        }
        let frames = self.frames;
        window_array_mut(self.data.as_mut_slice(), frames, first, len)
    }
}

impl<T: Clone + Copy + Default, const CHANNELS: usize> Clone for ChannelBuffer<T, CHANNELS> {
    /// A buffer of its own with the same samples.
    fn clone(&self) -> (out: Self)
        ensures
            out@ == self@,
            self.wf() ==> out.wf(),
    {
        ChannelBuffer {
            data: vstd::slice::slice_to_vec(self.data.as_slice()),
            offsets: self.offsets,
            frames: self.frames,
        }
    }
}

impl<T: Clone + Copy + Default, const CHANNELS: usize> Default for ChannelBuffer<T, CHANNELS> {
    /// A buffer of no samples.
    fn default() -> (out: Self)
        ensures
            out.wf(),
            out@ == Planar::of(Seq::<T>::empty(), CHANNELS as nat, 0),
    {
        Self::empty()
    }
}

impl<T: Clone + Copy + Default, const CHANNELS: usize> std::ops::Index<usize>
    for ChannelBuffer<T, CHANNELS> {
    type Output = [T];

    /// Channel `index`.
    fn index(&self, index: usize) -> (out: &[T])
        ensures
            out@ == self@.channel(index as int),
            out@.len() == self@.frames,
    {
        self.channel_unchecked(index)
    }
}

impl<T: Clone + Copy + Default, const CHANNELS: usize> vstd::std_specs::core::IndexSpecImpl<usize>
    for ChannelBuffer<T, CHANNELS> {
    /// Indexing asks for a well-formed buffer and a channel that exists.
    open spec fn index_req(&self, index: &usize) -> bool {
        self.wf() && *index < CHANNELS
    }
}

} // verus!
