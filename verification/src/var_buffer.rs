//! An owned buffer with a channel count chosen at run time, up to a maximum
//! fixed at compile time.
//!
//! The functions that hand out every channel at once collect the slices in a
//! `Vec`, one slice per channel: they allocate, as the functions that make or
//! resize the buffer do.

use vstd::prelude::*;
use crate::planar::{all_default, is_default, Planar};
use crate::slicing::{
    clamp_length, clamp_range, clear_leading, default_region, fill_default, resize_default, span, span_mut,
    start_table, windows_at, windows_mut,
};
use crate::var_buffer_ref::{VarChannelBufferRef, VarChannelBufferRefMut};
use core::ops::Range;

verus! {

/// A planar buffer that owns its region, with at least one and at most
/// `MAX_CHANNELS` channels.
///
/// The region is exactly `channels * frames` samples. The start of every
/// channel is kept in a table that is computed anew whenever the region
/// changes its size.
#[derive(Debug)]
pub struct VarChannelBuffer<T: Clone + Copy + Default, const MAX_CHANNELS: usize> {
    data: Vec<T>,
    offsets: Vec<usize>,
    frames: usize,
}

impl<T: Clone + Copy + Default, const MAX_CHANNELS: usize> View
    for VarChannelBuffer<T, MAX_CHANNELS> {
    type V = Planar<T>;

    closed spec fn view(&self) -> Planar<T> {
        Planar { raw: self.data@, channels: self.offsets@.len(), frames: self.frames as nat }
    }
}

impl<T: Clone + Copy + Default, const MAX_CHANNELS: usize> VarChannelBuffer<T, MAX_CHANNELS> {
    /// There is at least one channel and at most `MAX_CHANNELS`, the region
    /// holds the channels and nothing else, and the table holds the start of
    /// every channel.
    pub closed spec fn wf(&self) -> bool {
        &&& 1 <= self.offsets@.len() <= MAX_CHANNELS
        &&& self.data@.len() == self.offsets@.len() * self.frames
        &&& forall|c: int|
            0 <= c < self.offsets@.len() ==> #[trigger] self.offsets@[c] == c * self.frames
    }

    /// A well-formed buffer reads between one and `MAX_CHANNELS` channels
    /// that fill its region.
    pub proof fn lemma_wf(&self)
        requires
            self.wf(),
        ensures
            1 <= self@.channels <= MAX_CHANNELS,
            self@.exact(),
            self@.frames <= usize::MAX,
            self@.raw.len() <= usize::MAX,
    {
        assert(self.data@.len() == self.data.len());
    }

    /// A buffer of one channel of no samples.
    pub fn empty() -> (out: Self)
        requires
            MAX_CHANNELS >= 1,
        ensures
            out.wf(),
            out@ == Planar::of(Seq::<T>::empty(), 1, 0),
    {
        let data: Vec<T> = Vec::new();
        VarChannelBuffer { data, offsets: start_table(1, 0), frames: 0 }
    }

    /// A buffer of `channels` channels of `frames` frames, each sample the
    /// default value.
    pub fn new(channels: usize, frames: usize) -> (out: Self)
        requires
            1 <= channels <= MAX_CHANNELS,
            channels * frames <= usize::MAX,
        ensures
            out.wf(),
            out@.channels == channels,
            out@.frames == frames,
            out@.raw.len() == channels * frames,
            all_default(out@.raw),
    {
        let data = default_region(channels * frames);
        VarChannelBuffer { data, offsets: start_table(channels, frames), frames }
    }

    /// A buffer of `channels` channels of `frames` frames, of which the
    /// samples are left for the caller to write: nothing is promised of what
    /// they hold.
    pub fn new_uninit(channels: usize, frames: usize) -> (out: Self)
        requires
            1 <= channels <= MAX_CHANNELS,
            channels * frames <= usize::MAX,
        ensures
            out.wf(),
            out@.channels == channels,
            out@.frames == frames,
            out@.raw.len() == channels * frames,
    {
        Self::new(channels, frames)
    }

    /// The number of channels.
    pub fn channels(&self) -> (channels: usize)
        ensures
            channels == self@.channels,
    {
        self.offsets.len()
    }

    /// The number of frames in every channel.
    pub fn frames(&self) -> (frames: usize)
        ensures
            frames == self@.frames,
    {
        self.frames
    }

    /// Changes the number of channels to `channels`. The channels that stay
    /// keep their samples; the channels that are added hold the default
    /// value. With the number that the buffer has, nothing changes.
    ///
    /// This may allocate: it is not for the audio path.
    pub fn set_num_channels(&mut self, channels: usize)
        requires
            old(self).wf(),
            1 <= channels <= MAX_CHANNELS,
            channels * old(self)@.frames <= usize::MAX,
        ensures
            final(self).wf(),
            old(self)@.resized(channels as nat, final(self)@),
            old(self)@.grown_default(final(self)@),
    {
        self.resize(channels);
    }

    /// Changes the number of channels to `channels`. The channels that stay
    /// keep their samples; the samples of the channels that are added are
    /// left for the caller to write, and nothing is promised of what they
    /// hold. With the number that the buffer has, nothing changes.
    ///
    /// This may allocate: it is not for the audio path.
    pub fn set_num_channels_uninit(&mut self, channels: usize)
        requires
            old(self).wf(),
            1 <= channels <= MAX_CHANNELS,
            channels * old(self)@.frames <= usize::MAX,
        ensures
            final(self).wf(),
            old(self)@.resized(channels as nat, final(self)@),
    {
        self.resize(channels);
    }

    /// Channel `index`, or `None` where there is no such channel.
    pub fn channel(&self, index: usize) -> (out: Option<&[T]>)
        requires
            self.wf(),
        ensures
            (match out {
                Some(channel) => {
                    &&& index < self@.channels
                    &&& channel@ == self@.channel(index as int)
                    &&& channel@.len() == self@.frames
                },
                None => index >= self@.channels,
            }),
    {
        if index < self.offsets.len() {
            Some(self.channel_unchecked(index))
        } else {
            None
        }
    }

    /// Channel `index`, which the caller knows to exist.
    pub fn channel_unchecked(&self, index: usize) -> (out: &[T])
        requires
            self.wf(),
            index < self@.channels,
        ensures
            out@ == self@.channel(index as int),
            out@.len() == self@.frames,
    {
        proof {
            self.lemma_starts_fit();
        }
        span(self.data.as_slice(), self.offsets[index], self.frames)
    }

    /// Channel `index` for writing, or `None` where there is no such channel.
    /// What is written to the slice is written to that channel, and to
    /// nothing else.
    pub fn channel_mut(&mut self, index: usize) -> (out: Option<&mut [T]>)
        requires
            old(self).wf(),
        ensures
            (match out {
                Some(channel) => {
                    &&& index < old(self)@.channels
                    &&& channel@ == old(self)@.channel(index as int)
                    &&& channel@.len() == old(self)@.frames
                    &&& final(self)@ == old(self)@.with_window(
                        index as int,
                        0,
                        old(self)@.frames as int,
                        final(channel)@,
                    )
                    &&& final(channel)@.len() == channel@.len() ==> final(self).wf()
                },
                None => {
                    &&& index >= old(self)@.channels
                    &&& final(self)@ == old(self)@
                    &&& final(self).wf()
                },
            }),
    {
        if index < self.offsets.len() {
            Some(self.channel_unchecked_mut(index))
        } else {
            None
        }
    }

    /// Channel `index`, which the caller knows to exist, for writing. What is
    /// written to the slice is written to that channel, and to nothing else.
    pub fn channel_unchecked_mut(&mut self, index: usize) -> (out: &mut [T])
        requires
            old(self).wf(),
            index < old(self)@.channels,
        ensures
            out@ == old(self)@.channel(index as int),
            out@.len() == old(self)@.frames,
            final(self)@ == old(self)@.with_window(
                index as int,
                0,
                old(self)@.frames as int,
                final(out)@,
            ),
            final(out)@.len() == out@.len() ==> final(self).wf(),
    {
        proof {
            self.lemma_starts_fit();
        }
        let lo = self.offsets[index];
        span_mut(self.data.as_mut_slice(), lo, self.frames)
    }

    /// Every channel, in channel order.
    pub fn as_slices(&self) -> (out: Vec<&[T]>)
        requires
            self.wf(),
        ensures
            out@.len() == self@.channels,
            forall|c: int|
                #![trigger out@[c]]
                0 <= c < self@.channels ==> ({
                    &&& out@[c]@ == self@.channel(c)
                    &&& out@[c]@.len() == self@.frames
                }),
    {
        self.windows(0, self.frames)
    }

    /// Every channel for writing, in channel order. No two of the slices
    /// share a sample: what is written to one is written to its channel, and
    /// to nothing else.
    pub fn as_mut_slices(&mut self) -> (out: Vec<&mut [T]>)
        requires
            old(self).wf(),
        ensures
            out@.len() == old(self)@.channels,
            forall|c: int|
                #![trigger out@[c]]
                0 <= c < old(self)@.channels ==> ({
                    &&& out@[c]@ == old(self)@.channel(c)
                    &&& out@[c]@.len() == old(self)@.frames
                }),
            final(self)@ == old(self)@.with_windows(
                0,
                old(self)@.frames as int,
                out@.map_values(|s: &mut [T]| final(s)@),
            ),
            old(self)@.parts_fit(
                old(self)@.frames as int,
                out@.map_values(|s: &mut [T]| final(s)@),
            ) ==> final(self).wf(),
    {
        let frames = self.frames;
        self.windows_mut(0, frames)
    }

    /// The first `frames` frames of every channel, or the whole channel where
    /// it holds fewer.
    pub fn as_slices_with_length(&self, frames: usize) -> (out: Vec<&[T]>)
        requires
            self.wf(),
        ensures
            out@.len() == self@.channels,
            forall|c: int|
                #![trigger out@[c]]
                0 <= c < self@.channels ==> ({
                    &&& out@[c]@ == self@.window(c, 0, self@.clamp(frames as int))
                    &&& out@[c]@.len() == self@.clamp(frames as int)
                }),
    {
        let len = clamp_length(frames, self.frames);
        self.windows(0, len)
    }

    /// The first `frames` frames of every channel for writing, or the whole
    /// channel where it holds fewer. The later frames stay as they are.
    pub fn as_mut_slices_with_length(&mut self, frames: usize) -> (out: Vec<&mut [T]>)
        requires
            old(self).wf(),
        ensures
            out@.len() == old(self)@.channels,
            forall|c: int|
                #![trigger out@[c]]
                0 <= c < old(self)@.channels ==> ({
                    &&& out@[c]@ == old(self)@.window(c, 0, old(self)@.clamp(frames as int))
                    &&& out@[c]@.len() == old(self)@.clamp(frames as int)
                }),
            final(self)@ == old(self)@.with_windows(
                0,
                old(self)@.clamp(frames as int),
                out@.map_values(|s: &mut [T]| final(s)@),
            ),
            old(self)@.parts_fit(
                old(self)@.clamp(frames as int),
                out@.map_values(|s: &mut [T]| final(s)@),
            ) ==> final(self).wf(),
    {
        let len = clamp_length(frames, self.frames);
        self.windows_mut(0, len)
    }

    /// The frames `range` of every channel, as far as the channel holds them.
    pub fn as_slices_with_range(&self, range: Range<usize>) -> (out: Vec<&[T]>)
        requires
            self.wf(),
        ensures
            out@.len() == self@.channels,
            forall|c: int|
                #![trigger out@[c]]
                0 <= c < self@.channels ==> ({
                    &&& out@[c]@ == self@.window(
                        c,
                        self@.clamp(range.start as int),
                        self@.clamp_span(range.start as int, range.end as int),
                    )
                    &&& out@[c]@.len() == self@.clamp_span(range.start as int, range.end as int)
                }),
    {
        let (first, len) = clamp_range(range, self.frames);
        self.windows(first, len)
    }

    /// The frames `range` of every channel for writing, as far as the channel
    /// holds them. The frames outside the range stay as they are.
    pub fn as_mut_slices_with_range(&mut self, range: Range<usize>) -> (out: Vec<&mut [T]>)
        requires
            old(self).wf(),
        ensures
            out@.len() == old(self)@.channels,
            forall|c: int|
                #![trigger out@[c]]
                0 <= c < old(self)@.channels ==> ({
                    &&& out@[c]@ == old(self)@.window(
                        c,
                        old(self)@.clamp(range.start as int),
                        old(self)@.clamp_span(range.start as int, range.end as int),
                    )
                    &&& out@[c]@.len() == old(self)@.clamp_span(range.start as int, range.end as int)
                }),
            final(self)@ == old(self)@.with_windows(
                old(self)@.clamp(range.start as int),
                old(self)@.clamp_span(range.start as int, range.end as int),
                out@.map_values(|s: &mut [T]| final(s)@),
            ),
            old(self)@.parts_fit(
                old(self)@.clamp_span(range.start as int, range.end as int),
                out@.map_values(|s: &mut [T]| final(s)@),
            ) ==> final(self).wf(),
    {
        let (first, len) = clamp_range(range, self.frames);
        self.windows_mut(first, len)
    }

    /// The whole region.
    pub fn raw(&self) -> (out: &[T])
        ensures
            out@ == self@.raw,
    {
        self.data.as_slice()
    }

    /// The whole region, for writing.
    pub fn raw_mut(&mut self) -> (out: &mut [T])
        ensures
            out@ == old(self)@.raw,
            final(self)@ == old(self)@.with_raw(final(out)@),
            old(self).wf() && final(out)@.len() == out@.len() ==> final(self).wf(),
    {
        self.data.as_mut_slice()
    }

    /// Overwrites every sample with the default value.
    pub fn clear(&mut self)
        ensures
            final(self)@.channels == old(self)@.channels,
            final(self)@.frames == old(self)@.frames,
            final(self)@.raw.len() == old(self)@.raw.len(),
            all_default(final(self)@.raw),
            old(self).wf() ==> final(self).wf(),
    {
        let len = self.data.len();
        fill_default(self.data.as_mut_slice(), 0, len);
        proof {
            assert(self.data@.subrange(0, len as int) =~= self.data@);
        }
    }

    /// Overwrites the first `frames` frames of every channel with the default
    /// value, or the whole channel where it holds fewer. The later frames of
    /// each channel stay as they are.
    pub fn clear_frames(&mut self, frames: usize)
        requires
            old(self).wf(),
        ensures
            final(self).wf(),
            old(self)@.cleared(old(self)@.clamp(frames as int), final(self)@),
    {
        let len = clamp_length(frames, self.frames);
        let channels = self.offsets.len();
        clear_leading(self.data.as_mut_slice(), channels, self.frames, len);
    }

    /// A read-only view of the buffer.
    pub fn as_ref<'a>(&'a self) -> (out: VarChannelBufferRef<'a, T, MAX_CHANNELS>)
        requires
            self.wf(),
        ensures
            out.wf(),
            out@ == self@,
    {
        VarChannelBufferRef::new_unchecked(self.data.as_slice(), self.frames, self.offsets.len())
    }

    /// A view of the buffer for reading and writing. What is written through
    /// the view is written to the buffer.
    pub fn as_mut<'a>(&'a mut self) -> (out: VarChannelBufferRefMut<'a, T, MAX_CHANNELS>)
        requires
            old(self).wf(),
        ensures
            out.wf(),
            out@ == old(self)@,
            final(self)@ == old(self)@.with_raw(final(out.source())@),
            final(out.source())@.len() == old(self)@.raw.len() ==> final(self).wf(),
    {
        let frames = self.frames;
        let channels = self.offsets.len();
        VarChannelBufferRefMut::new_unchecked(self.data.as_mut_slice(), frames, channels)
    }

    /// The region, given up by the buffer.
    pub fn into_vec(self) -> (out: Vec<T>)
        ensures
            out@ == self@.raw,
    {
        self.data
    }

    /// In a well-formed buffer every channel lies within the region, from the
    /// start that the table holds for it.
    proof fn lemma_starts_fit(&self)
        requires
            self.wf(),
        ensures
            forall|c: int|
                0 <= c < self.offsets@.len() ==> #[trigger] self.offsets@[c] + self.frames
                    <= self.data@.len(),
            forall|c: int|
                0 <= c < self.offsets@.len() ==> #[trigger] self.offsets@[c] == self@.start(c),
    {
        assert forall|c: int| 0 <= c < self.offsets@.len() implies #[trigger] self.offsets@[c]
            + self.frames <= self.data@.len() by {
            assert(c * self.frames + self.frames <= self.offsets@.len() * self.frames)
                by (nonlinear_arith)
                requires
                    0 <= c < self.offsets@.len(),
            ;
        }
    }

    fn resize(&mut self, channels: usize)
        requires
            old(self).wf(),
            1 <= channels <= MAX_CHANNELS,
            channels * old(self)@.frames <= usize::MAX,
        ensures
            final(self).wf(),
            old(self)@.resized(channels as nat, final(self)@),
            old(self)@.grown_default(final(self)@),
    {
        if channels == self.offsets.len() {
            proof {
                assert(self@.raw.subrange(0, self@.raw.len() as int) =~= self@.raw);
            }
            return ;
        }
        let ghost before = self@;
        let frames = self.frames;
        resize_default(&mut self.data, channels * frames);
        self.offsets = start_table(channels, frames);
        proof {
            let after = self@;
            let kept: nat = if channels <= before.channels {
                channels as nat
            } else {
                before.channels
            };
            assert(kept * frames <= before.raw.len() && kept * frames <= after.raw.len() && (channels
                <= before.channels ==> channels * frames <= before.raw.len()) && (channels
                >= before.channels ==> before.raw.len() <= channels * frames)) by (nonlinear_arith)
                requires
                    kept <= channels,
                    kept <= before.channels,
                    kept == channels || kept == before.channels,
                    before.raw.len() == before.channels * frames,
                    after.raw.len() == channels * frames,
            ;
            assert(after.raw.subrange(0, (kept * frames) as int) =~= before.raw.subrange(
                0,
                (kept * frames) as int,
            ));
            after.lemma_shared_channels(before, kept);
            assert forall|c: int| before.channels <= c < after.channels implies all_default(
                #[trigger] after.channel(c),
            ) by {
                assert(c * frames + frames <= channels * frames && before.channels * frames <= c
                    * frames) by (nonlinear_arith)
                    requires
                        before.channels <= c < channels,
                ;
                let added = after.raw.subrange(before.raw.len() as int, after.raw.len() as int);
                assert forall|k: int| 0 <= k < after.channel(c).len() implies is_default(
                    #[trigger] after.channel(c)[k],
                ) by {
                    assert(after.channel(c)[k] == added[c * frames + k - before.raw.len()]);
                }
            }
        }
    }

    fn windows(&self, first: usize, len: usize) -> (out: Vec<&[T]>)
        requires
            self.wf(),
            first + len <= self.frames,
        ensures
            out@.len() == self@.channels,
            forall|c: int|
                #![trigger out@[c]]
                0 <= c < self@.channels ==> ({
                    &&& out@[c]@ == self@.window(c, first as int, len as int)
                    &&& out@[c]@.len() == len
                }),
    {
        proof {
            self.lemma_starts_fit();
        }
        windows_at(self.data.as_slice(), self.offsets.as_slice(), first, len)
    }

    fn windows_mut(&mut self, first: usize, len: usize) -> (out: Vec<&mut [T]>)
        requires
            old(self).wf(),
            first + len <= old(self)@.frames,
        ensures
            out@.len() == old(self)@.channels,
            forall|c: int|
                #![trigger out@[c]]
                0 <= c < old(self)@.channels ==> ({
                    &&& out@[c]@ == old(self)@.window(c, first as int, len as int)
                    &&& out@[c]@.len() == len
                }),
            final(self)@ == old(self)@.with_windows(
                first as int,
                len as int,
                out@.map_values(|s: &mut [T]| final(s)@),
            ),
            old(self)@.parts_fit(len as int, out@.map_values(|s: &mut [T]| final(s)@))
                ==> final(self).wf(),
    {
        proof {
            assert forall|parts: Seq<Seq<T>>| self@.parts_fit(len as int, parts) implies (
            #[trigger] self@.with_windows(first as int, len as int, parts)).raw.len()
                == self@.raw.len() by {
                self@.lemma_with_windows(first as int, len as int, parts);
            }
        }
        let frames = self.frames;
        let channels = self.offsets.len();
        windows_mut(self.data.as_mut_slice(), channels, frames, first, len)
    }
}

impl<T: Clone + Copy + Default, const MAX_CHANNELS: usize> Clone
    for VarChannelBuffer<T, MAX_CHANNELS> {
    /// A buffer of its own with the same samples.
    fn clone(&self) -> (out: Self)
        ensures
            out@ == self@,
            self.wf() ==> out.wf(),
    {
        VarChannelBuffer {
            data: vstd::slice::slice_to_vec(self.data.as_slice()),
            offsets: vstd::slice::slice_to_vec(self.offsets.as_slice()),
            frames: self.frames,
        }
    }
}

impl<T: Clone + Copy + Default, const MAX_CHANNELS: usize> Default
    for VarChannelBuffer<T, MAX_CHANNELS> {
    /// A buffer of one channel of no samples. It is well formed unless
    /// `MAX_CHANNELS` is zero.
    fn default() -> (out: Self)
        ensures
            MAX_CHANNELS >= 1 ==> out.wf(),
            out@ == Planar::of(Seq::<T>::empty(), 1, 0),
    {
        let data: Vec<T> = Vec::new();
        VarChannelBuffer { data, offsets: start_table(1, 0), frames: 0 }
    }
}

impl<T: Clone + Copy + Default, const MAX_CHANNELS: usize> std::ops::Index<usize>
    for VarChannelBuffer<T, MAX_CHANNELS> {
    type Output = [T];

    /// Channel `index`.
    fn index(&self, index: usize) -> (out: &[T])
        ensures
            out@ == self@.channel(index as int),
            out@.len() == self@.frames,
    {
        self.channel_unchecked(index)
    }
}

impl<T: Clone + Copy + Default, const MAX_CHANNELS: usize> vstd::std_specs::core::IndexSpecImpl<usize>
    for VarChannelBuffer<T, MAX_CHANNELS> {
    /// Indexing asks for a well-formed buffer and a channel that exists.
    open spec fn index_req(&self, index: &usize) -> bool {
        self.wf() && *index < self@.channels
    }
}

} // verus!
