//! Borrowed buffers with a channel count chosen at run time, up to a maximum
//! fixed at compile time.
//!
//! A view wraps a region that its maker lends to it: it allocates nothing to
//! hold the region and never changes its length. It has at least one channel.
//! The start of channel `c` is computed where it is needed, as `c * frames`.
//!
//! The functions that hand out every channel at once collect the slices in a
//! `Vec`, one slice per channel: they allocate.

use vstd::prelude::*;
use crate::planar::{all_default, Planar};
use crate::slicing::{
    channel_window, channel_window_mut, clamp_length, clamp_range, clear_leading, fill_default, windows,
    windows_mut,
};
use core::ops::Range;

verus! {

/// A read-only planar view of a borrowed region, with at least one and at
/// most `MAX_CHANNELS` channels.
#[derive(Debug)]
pub struct VarChannelBufferRef<'a, T: Clone + Copy + Default, const MAX_CHANNELS: usize> {
    data: &'a [T],
    channels: usize,
    frames: usize,
}

impl<'a, T: Clone + Copy + Default, const MAX_CHANNELS: usize> View
    for VarChannelBufferRef<'a, T, MAX_CHANNELS> {
    type V = Planar<T>;

    closed spec fn view(&self) -> Planar<T> {
        Planar { raw: self.data@, channels: self.channels as nat, frames: self.frames as nat }
    }
}

impl<'a, T: Clone + Copy + Default, const MAX_CHANNELS: usize> VarChannelBufferRef<'a, T, MAX_CHANNELS> {
    /// There is at least one channel and at most `MAX_CHANNELS`, and the
    /// borrowed region holds every channel in full.
    pub closed spec fn wf(&self) -> bool {
        &&& 1 <= self.channels <= MAX_CHANNELS
        &&& self.channels * self.frames <= self.data@.len()
    }

    /// A well-formed view reads between one and `MAX_CHANNELS` channels that
    /// fit its region.
    pub proof fn lemma_wf(&self)
        requires
            self.wf(),
        ensures
            1 <= self@.channels <= MAX_CHANNELS,
            self@.fits(),
            self@.frames <= usize::MAX,
            self@.raw.len() <= usize::MAX,
    {
        assert(self.data@.len() == self.data.len());
    }

    /// A view of one channel of no samples.
    pub fn empty() -> (out: Self)
        requires
            MAX_CHANNELS >= 1,
        ensures
            out.wf(),
            out@ == Planar::of(Seq::<T>::empty(), 1, 0),
    {
        let data: &'a [T] = &[];
        proof {
            assert(data@ =~= Seq::<T>::empty());
        }
        VarChannelBufferRef { data, channels: 1, frames: 0 }
    }

    /// A view of `data` as `channels` channels, with as many frames as `data`
    /// can fill in every channel.
    pub fn new(data: &'a [T], channels: usize) -> (out: Self)
        requires
            1 <= channels <= MAX_CHANNELS,
        ensures
            out.wf(),
            out@ == Planar::of(data@, channels as nat, data@.len() / (channels as nat)),
    {
        let frames = data.len() / channels;
        proof {
            vstd::arithmetic::div_mod::lemma_fundamental_div_mod(data.len() as int, channels as int);
        }
        VarChannelBufferRef { data, channels, frames }
    }

    /// A view of `data` as `channels` channels of `frames` frames, where the
    /// caller knows that `data` holds them.
    pub fn new_unchecked(data: &'a [T], frames: usize, channels: usize) -> (out: Self)
        requires
            1 <= channels <= MAX_CHANNELS,
            channels * frames <= data@.len(),
        ensures
            out.wf(),
            out@ == Planar::of(data@, channels as nat, frames as nat),
    {
        VarChannelBufferRef { data, channels, frames }
    }

    /// The number of channels.
    pub fn channels(&self) -> (channels: usize)
        ensures
            channels == self@.channels,
    {
        self.channels
    }

    /// The number of frames in every channel.
    pub fn frames(&self) -> (frames: usize)
        ensures
            frames == self@.frames,
    {
        self.frames
    }

    /// Channel `index`, or `None` where there is no such channel.
    pub fn channel(&self, index: usize) -> (out: Option<&[T]>)
        requires
            self.wf(),
        ensures
            (match out {
                Some(channel) => {
                    &&& index < self@.channels
                    &&& channel@ == self@.channel(index as int)
                    &&& channel@.len() == self@.frames
                },
                None => index >= self@.channels,
            }),
    {
        if index < self.channels {
            Some(self.channel_unchecked(index))
        } else {
            None
        }
    }

    /// Channel `index`, which the caller knows to exist.
    pub fn channel_unchecked(&self, index: usize) -> (out: &[T])
        requires
            self.wf(),
            index < self@.channels,
        ensures
            out@ == self@.channel(index as int),
            out@.len() == self@.frames,
    {
        proof {
            assert((index + 1) * self.frames <= self.channels * self.frames) by (nonlinear_arith)
                requires
                    index < self.channels,
            ;
        }
        channel_window(self.data, self.frames, index, 0, self.frames)
    }

    /// Every channel, in channel order.
    pub fn as_slices(&self) -> (out: Vec<&[T]>)
        requires
            self.wf(),
        ensures
            out@.len() == self@.channels,
            forall|c: int|
                #![trigger out@[c]]
                0 <= c < self@.channels ==> ({
                    &&& out@[c]@ == self@.channel(c)
                    &&& out@[c]@.len() == self@.frames
                }),
    {
        windows(self.data, self.channels, self.frames, 0, self.frames)
    }

    /// The first `frames` frames of every channel, or the whole channel where
    /// it holds fewer.
    pub fn as_slices_with_length(&self, frames: usize) -> (out: Vec<&[T]>)
        requires
            self.wf(),
        ensures
            out@.len() == self@.channels,
            forall|c: int|
                #![trigger out@[c]]
                0 <= c < self@.channels ==> ({
                    &&& out@[c]@ == self@.window(c, 0, self@.clamp(frames as int))
                    &&& out@[c]@.len() == self@.clamp(frames as int)
                }),
    {
        let len = clamp_length(frames, self.frames);
        windows(self.data, self.channels, self.frames, 0, len)
    }

    /// The frames `range` of every channel, as far as the channel holds them.
    pub fn as_slices_with_range(&self, range: Range<usize>) -> (out: Vec<&[T]>)
        requires
            self.wf(),
        ensures
            out@.len() == self@.channels,
            forall|c: int|
                #![trigger out@[c]]
                0 <= c < self@.channels ==> ({
                    &&& out@[c]@ == self@.window(
                        c,
                        self@.clamp(range.start as int),
                        self@.clamp_span(range.start as int, range.end as int),
                    )
                    &&& out@[c]@.len() == self@.clamp_span(range.start as int, range.end as int)
                }),
    {
        let (first, len) = clamp_range(range, self.frames);
        windows(self.data, self.channels, self.frames, first, len)
    }

    /// The whole region.
    pub fn raw(&self) -> (out: &[T])
        ensures
            out@ == self@.raw,
    {
        self.data
    }
}

impl<'a, T: Clone + Copy + Default, const MAX_CHANNELS: usize> Clone
    for VarChannelBufferRef<'a, T, MAX_CHANNELS> {
    /// Another view of the same region.
    fn clone(&self) -> (out: Self)
        ensures
            out == *self,
    {
        VarChannelBufferRef { data: self.data, channels: self.channels, frames: self.frames }
    }
}

impl<'a, T: Clone + Copy + Default, const MAX_CHANNELS: usize> Default
    for VarChannelBufferRef<'a, T, MAX_CHANNELS> {
    /// A view of one channel of no samples. It is well formed unless
    /// `MAX_CHANNELS` is zero.
    fn default() -> (out: Self)
        ensures
            MAX_CHANNELS >= 1 ==> out.wf(),
            out@ == Planar::of(Seq::<T>::empty(), 1, 0),
    {
        let data: &'a [T] = &[];
        proof {
            assert(data@ =~= Seq::<T>::empty());
        }
        VarChannelBufferRef { data, channels: 1, frames: 0 }
    }
}

impl<'a, T: Clone + Copy + Default, const MAX_CHANNELS: usize> std::ops::Index<usize>
    for VarChannelBufferRef<'a, T, MAX_CHANNELS> {
    type Output = [T];

    /// Channel `index`.
    fn index(&self, index: usize) -> (out: &[T])
        ensures
            out@ == self@.channel(index as int),
            out@.len() == self@.frames,
    {
        self.channel_unchecked(index)
    }
}

impl<'a, T: Clone + Copy + Default, const MAX_CHANNELS: usize> vstd::std_specs::core::IndexSpecImpl<usize>
    for VarChannelBufferRef<'a, T, MAX_CHANNELS> {
    /// Indexing asks for a well-formed view and a channel that exists.
    open spec fn index_req(&self, index: &usize) -> bool {
        self.wf() && *index < self@.channels
    }
}

/// A planar view of an exclusively borrowed region, with at least one and at
/// most `MAX_CHANNELS` channels, for reading and writing.
///
/// What is written through the view is written to the lender's region:
/// [`Self::source`] names the reference that the view holds, and every
/// function that writes says that the view still holds it.
#[derive(Debug)]
pub struct VarChannelBufferRefMut<'a, T: Clone + Copy + Default, const MAX_CHANNELS: usize> {
    data: &'a mut [T],
    channels: usize,
    frames: usize,
}

impl<'a, T: Clone + Copy + Default, const MAX_CHANNELS: usize> View
    for VarChannelBufferRefMut<'a, T, MAX_CHANNELS> {
    type V = Planar<T>;

    closed spec fn view(&self) -> Planar<T> {
        Planar { raw: self.data@, channels: self.channels as nat, frames: self.frames as nat }
    }
}

impl<'a, T: Clone + Copy + Default, const MAX_CHANNELS: usize> VarChannelBufferRefMut<'a, T, MAX_CHANNELS> {
    /// There is at least one channel and at most `MAX_CHANNELS`, and the
    /// borrowed region holds every channel in full.
    pub closed spec fn wf(&self) -> bool {
        &&& 1 <= self.channels <= MAX_CHANNELS
        &&& self.channels * self.frames <= self.data@.len()
    }

    /// The reference that the view was made from. Its final value is what the
    /// lender finds in the region once the view is gone.
    pub closed spec fn source(&self) -> &'a mut [T] {
        self.data
    }

    /// A well-formed view reads between one and `MAX_CHANNELS` channels that
    /// fit its region.
    pub proof fn lemma_wf(&self)
        requires
            self.wf(),
        ensures
            1 <= self@.channels <= MAX_CHANNELS,
            self@.fits(),
            self@.frames <= usize::MAX,
            self@.raw.len() <= usize::MAX,
    {
        assert(self.data@.len() == self.data.len());
    }

    /// A view that has been used for the last time leaves its region as the
    /// view reads.
    pub proof fn lemma_released(self)
        requires
            has_resolved(self),
        ensures
            final(self.source())@ == self@.raw,
    {
    }

    /// A view of one channel of no samples.
    pub fn empty() -> (out: Self)
        requires
            MAX_CHANNELS >= 1,
        ensures
            out.wf(),
            out@ == Planar::of(Seq::<T>::empty(), 1, 0),
    {
        let data: &'a mut [T] = &mut [];
        proof {
            assert(data@ =~= Seq::<T>::empty());
        }
        VarChannelBufferRefMut { data, channels: 1, frames: 0 }
    }

    /// A view of `data` as `channels` channels, with as many frames as `data`
    /// can fill in every channel.
    pub fn new(data: &'a mut [T], channels: usize) -> (out: Self)
        requires
            1 <= channels <= MAX_CHANNELS,
        ensures
            out.wf(),
            out@ == Planar::of(old(data)@, channels as nat, old(data)@.len() / (channels as nat)),
            final(out.source())@ == final(data)@,
    {
        let frames = data.len() / channels;
        proof {
            vstd::arithmetic::div_mod::lemma_fundamental_div_mod(data.len() as int, channels as int);
        }
        VarChannelBufferRefMut { data, channels, frames }
    }

    /// A view of `data` as `channels` channels of `frames` frames, where the
    /// caller knows that `data` holds them.
    pub fn new_unchecked(data: &'a mut [T], frames: usize, channels: usize) -> (out: Self)
        requires
            1 <= channels <= MAX_CHANNELS,
            channels * frames <= old(data)@.len(),
        ensures
            out.wf(),
            out@ == Planar::of(old(data)@, channels as nat, frames as nat),
            final(out.source())@ == final(data)@,
    {
        VarChannelBufferRefMut { data, channels, frames }
    }

    /// The view, with the right to write given up.
    pub fn into_ref(self) -> (out: VarChannelBufferRef<'a, T, MAX_CHANNELS>)
        ensures
            out@ == self@,
            self.wf() ==> out.wf(),
            final(self.source())@ == self@.raw,
    {
        VarChannelBufferRef { data: self.data, channels: self.channels, frames: self.frames }
    }

    /// The borrowed region, for reading, with the view given up.
    pub fn into_raw(self) -> (out: &'a [T])
        ensures
            out@ == self@.raw,
            final(self.source())@ == self@.raw,
    {
        self.data
    }

    /// The borrowed region itself, with the view given up.
    pub fn into_raw_mut(self) -> (out: &'a mut [T])
        ensures
            out@ == self@.raw,
            final(out)@ == final(self.source())@,
    {
        self.data
    }

    /// The number of channels.
    pub fn channels(&self) -> (channels: usize)
        ensures
            channels == self@.channels,
    {
        self.channels
    }

    /// The number of frames in every channel.
    pub fn frames(&self) -> (frames: usize)
        ensures
            frames == self@.frames,
    {
        self.frames
    }

    /// Channel `index`, or `None` where there is no such channel.
    pub fn channel(&self, index: usize) -> (out: Option<&[T]>)
        requires
            self.wf(),
        ensures
            (match out {
                Some(channel) => {
                    &&& index < self@.channels
                    &&& channel@ == self@.channel(index as int)
                    &&& channel@.len() == self@.frames
                },
                None => index >= self@.channels,
            }),
    {
        if index < self.channels {
            Some(self.channel_unchecked(index))
        } else {
            None
        }
    }

    /// Channel `index`, which the caller knows to exist.
    pub fn channel_unchecked(&self, index: usize) -> (out: &[T])
        requires
            self.wf(),
            index < self@.channels,
        ensures
            out@ == self@.channel(index as int),
            out@.len() == self@.frames,
    {
        proof {
            assert((index + 1) * self.frames <= self.channels * self.frames) by (nonlinear_arith)
                requires
                    index < self.channels,
            ;
        }
        channel_window(&*self.data, self.frames, index, 0, self.frames)
    }

    /// Channel `index` for writing, or `None` where there is no such channel.
    /// What is written to the slice is written to that channel, and to
    /// nothing else.
    pub fn channel_mut(&mut self, index: usize) -> (out: Option<&mut [T]>)
        requires
            old(self).wf(),
        ensures
            (match out {
                Some(channel) => {
                    &&& index < old(self)@.channels
                    &&& channel@ == old(self)@.channel(index as int)
                    &&& channel@.len() == old(self)@.frames
                    &&& final(self)@ == old(self)@.with_window(
                        index as int,
                        0,
                        old(self)@.frames as int,
                        final(channel)@,
                    )
                    &&& final(channel)@.len() == channel@.len() ==> final(self).wf()
                },
                None => {
                    &&& index >= old(self)@.channels
                    &&& final(self)@ == old(self)@
                    &&& final(self).wf()
                },
            }),
            final(final(self).source())@ == final(old(self).source())@,
    {
        if index < self.channels {
            Some(self.channel_unchecked_mut(index))
        } else {
            None
        }
    }

    /// Channel `index`, which the caller knows to exist, for writing. What is
    /// written to the slice is written to that channel, and to nothing else.
    pub fn channel_unchecked_mut(&mut self, index: usize) -> (out: &mut [T])
        requires
            old(self).wf(),
            index < old(self)@.channels,
        ensures
            out@ == old(self)@.channel(index as int),
            out@.len() == old(self)@.frames,
            final(self)@ == old(self)@.with_window(
                index as int,
                0,
                old(self)@.frames as int,
                final(out)@,
            ),
            final(out)@.len() == out@.len() ==> final(self).wf(),
            final(final(self).source())@ == final(old(self).source())@,
    {
        proof {
            assert((index + 1) * self.frames <= self.channels * self.frames && 0 <= index
                * self.frames && (index + 1) * self.frames == index * self.frames + self.frames)
                by (nonlinear_arith)
                requires
                    index < self.channels,
            ;
        }
        channel_window_mut(&mut *self.data, self.frames, index, 0, self.frames)
    }

    /// Every channel, in channel order.
    pub fn as_slices(&self) -> (out: Vec<&[T]>)
        requires
            self.wf(),
        ensures
            out@.len() == self@.channels,
            forall|c: int|
                #![trigger out@[c]]
                0 <= c < self@.channels ==> ({
                    &&& out@[c]@ == self@.channel(c)
                    &&& out@[c]@.len() == self@.frames
                }),
    {
        windows(&*self.data, self.channels, self.frames, 0, self.frames)
    }

    /// Every channel for writing, in channel order. No two of the slices
    /// share a sample: what is written to one is written to its channel, and
    /// to nothing else.
    pub fn as_mut_slices(&mut self) -> (out: Vec<&mut [T]>)
        requires
            old(self).wf(),
        ensures
            out@.len() == old(self)@.channels,
            forall|c: int|
                #![trigger out@[c]]
                0 <= c < old(self)@.channels ==> ({
                    &&& out@[c]@ == old(self)@.channel(c)
                    &&& out@[c]@.len() == old(self)@.frames
                }),
            final(self)@ == old(self)@.with_windows(
                0,
                old(self)@.frames as int,
                out@.map_values(|s: &mut [T]| final(s)@),
            ),
            old(self)@.parts_fit(
                old(self)@.frames as int,
                out@.map_values(|s: &mut [T]| final(s)@),
            ) ==> final(self).wf(),
            final(final(self).source())@ == final(old(self).source())@,
    {
        let frames = self.frames;
        self.windows_mut(0, frames)
    }

    /// The first `frames` frames of every channel, or the whole channel where
    /// it holds fewer.
    pub fn as_slices_with_length(&self, frames: usize) -> (out: Vec<&[T]>)
        requires
            self.wf(),
        ensures
            out@.len() == self@.channels,
            forall|c: int|
                #![trigger out@[c]]
                0 <= c < self@.channels ==> ({
                    &&& out@[c]@ == self@.window(c, 0, self@.clamp(frames as int))
                    &&& out@[c]@.len() == self@.clamp(frames as int)
                }),
    {
        let len = clamp_length(frames, self.frames);
        windows(&*self.data, self.channels, self.frames, 0, len)
    }

    /// The first `frames` frames of every channel for writing, or the whole
    /// channel where it holds fewer. The later frames stay as they are.
    pub fn as_mut_slices_with_length(&mut self, frames: usize) -> (out: Vec<&mut [T]>)
        requires
            old(self).wf(),
        ensures
            out@.len() == old(self)@.channels,
            forall|c: int|
                #![trigger out@[c]]
                0 <= c < old(self)@.channels ==> ({
                    &&& out@[c]@ == old(self)@.window(c, 0, old(self)@.clamp(frames as int))
                    &&& out@[c]@.len() == old(self)@.clamp(frames as int)
                }),
            final(self)@ == old(self)@.with_windows(
                0,
                old(self)@.clamp(frames as int),
                out@.map_values(|s: &mut [T]| final(s)@),
            ),
            old(self)@.parts_fit(
                old(self)@.clamp(frames as int),
                out@.map_values(|s: &mut [T]| final(s)@),
            ) ==> final(self).wf(),
            final(final(self).source())@ == final(old(self).source())@,
    {
        let len = clamp_length(frames, self.frames);
        self.windows_mut(0, len)
    }

    /// The frames `range` of every channel, as far as the channel holds them.
    pub fn as_slices_with_range(&self, range: Range<usize>) -> (out: Vec<&[T]>)
        requires
            self.wf(),
        ensures
            out@.len() == self@.channels,
            forall|c: int|
                #![trigger out@[c]]
                0 <= c < self@.channels ==> ({
                    &&& out@[c]@ == self@.window(
                        c,
                        self@.clamp(range.start as int),
                        self@.clamp_span(range.start as int, range.end as int),
                    )
                    &&& out@[c]@.len() == self@.clamp_span(range.start as int, range.end as int)
                }),
    {
        let (first, len) = clamp_range(range, self.frames);
        windows(&*self.data, self.channels, self.frames, first, len)
    }

    /// The frames `range` of every channel for writing, as far as the channel
    /// holds them. The frames outside the range stay as they are.
    pub fn as_mut_slices_with_range(&mut self, range: Range<usize>) -> (out: Vec<&mut [T]>)
        requires
            old(self).wf(),
        ensures
            out@.len() == old(self)@.channels,
            forall|c: int|
                #![trigger out@[c]]
                0 <= c < old(self)@.channels ==> ({
                    &&& out@[c]@ == old(self)@.window(
                        c,
                        old(self)@.clamp(range.start as int),
                        old(self)@.clamp_span(range.start as int, range.end as int),
                    )
                    &&& out@[c]@.len() == old(self)@.clamp_span(range.start as int, range.end as int)
                }),
            final(self)@ == old(self)@.with_windows(
                old(self)@.clamp(range.start as int),
                old(self)@.clamp_span(range.start as int, range.end as int),
                out@.map_values(|s: &mut [T]| final(s)@),
            ),
            old(self)@.parts_fit(
                old(self)@.clamp_span(range.start as int, range.end as int),
                out@.map_values(|s: &mut [T]| final(s)@),
            ) ==> final(self).wf(),
            final(final(self).source())@ == final(old(self).source())@,
    {
        let (first, len) = clamp_range(range, self.frames);
        self.windows_mut(first, len)
    }

    /// The whole region.
    pub fn raw(&self) -> (out: &[T])
        ensures
            out@ == self@.raw,
    {
        &*self.data
    }

    /// The whole region, for writing.
    pub fn raw_mut(&mut self) -> (out: &mut [T])
        ensures
            out@ == old(self)@.raw,
            final(self)@ == old(self)@.with_raw(final(out)@),
            old(self).wf() && final(out)@.len() == out@.len() ==> final(self).wf(),
            final(final(self).source())@ == final(old(self).source())@,
    {
        &mut *self.data
    }

    /// Overwrites every sample of the region with the default value.
    pub fn clear(&mut self)
        ensures
            final(self)@.channels == old(self)@.channels,
            final(self)@.frames == old(self)@.frames,
            final(self)@.raw.len() == old(self)@.raw.len(),
            all_default(final(self)@.raw),
            old(self).wf() ==> final(self).wf(),
            final(final(self).source())@ == final(old(self).source())@,
    {
        let len = self.data.len();
        fill_default(&mut *self.data, 0, len);
        proof {
            assert(self.data@.subrange(0, len as int) =~= self.data@);
        }
    }

    /// Overwrites the first `frames` frames of every channel with the default
    /// value, or the whole channel where it holds fewer. The later frames of
    /// each channel, and what follows the last channel, stay as they are.
    pub fn clear_frames(&mut self, frames: usize)
        requires
            old(self).wf(),
        ensures
            final(self).wf(),
            old(self)@.cleared(old(self)@.clamp(frames as int), final(self)@),
            final(final(self).source())@ == final(old(self).source())@,
    {
        let len = clamp_length(frames, self.frames);
        clear_leading(&mut *self.data, self.channels, self.frames, len);
    }

    fn windows_mut(&mut self, first: usize, len: usize) -> (out: Vec<&mut [T]>)
        requires
            old(self).wf(),
            first + len <= old(self)@.frames,
        ensures
            out@.len() == old(self)@.channels,
            forall|c: int|
                #![trigger out@[c]]
                0 <= c < old(self)@.channels ==> ({
                    &&& out@[c]@ == old(self)@.window(c, first as int, len as int)
                    &&& out@[c]@.len() == len
                }),
            final(self)@ == old(self)@.with_windows(
                first as int,
                len as int,
                out@.map_values(|s: &mut [T]| final(s)@),
            ),
            old(self)@.parts_fit(len as int, out@.map_values(|s: &mut [T]| final(s)@))
                ==> final(self).wf(),
            final(final(self).source())@ == final(old(self).source())@,
    {
        proof {
            assert forall|parts: Seq<Seq<T>>| self@.parts_fit(len as int, parts) implies (
            #[trigger] self@.with_windows(first as int, len as int, parts)).raw.len()
                == self@.raw.len() by {
                self@.lemma_with_windows(first as int, len as int, parts);
            }
        }
        windows_mut(&mut *self.data, self.channels, self.frames, first, len)
    }
}

impl<'a, T: Clone + Copy + Default, const MAX_CHANNELS: usize> Default
    for VarChannelBufferRefMut<'a, T, MAX_CHANNELS> {
    /// A view of one channel of no samples. It is well formed unless
    /// `MAX_CHANNELS` is zero.
    fn default() -> (out: Self)
        ensures
            MAX_CHANNELS >= 1 ==> out.wf(),
            out@ == Planar::of(Seq::<T>::empty(), 1, 0),
    {
        let data: &'a mut [T] = &mut [];
        proof {
            assert(data@ =~= Seq::<T>::empty());
        }
        VarChannelBufferRefMut { data, channels: 1, frames: 0 }
    }
}

impl<'a, T: Clone + Copy + Default, const MAX_CHANNELS: usize> std::ops::Index<usize>
    for VarChannelBufferRefMut<'a, T, MAX_CHANNELS> {
    type Output = [T];

    /// Channel `index`.
    fn index(&self, index: usize) -> (out: &[T])
        ensures
            out@ == self@.channel(index as int),
            out@.len() == self@.frames,
    {
        self.channel_unchecked(index)
    }
}

impl<'a, T: Clone + Copy + Default, const MAX_CHANNELS: usize> vstd::std_specs::core::IndexSpecImpl<usize>
    for VarChannelBufferRefMut<'a, T, MAX_CHANNELS> {
    /// Indexing asks for a well-formed view and a channel that exists.
    open spec fn index_req(&self, index: &usize) -> bool {
        self.wf() && *index < self@.channels
    }
}

} // verus!
