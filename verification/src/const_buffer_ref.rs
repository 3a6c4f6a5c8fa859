//! Borrowed buffers with a channel count fixed at compile time.
//!
//! A view wraps a region that its maker lends to it: it allocates nothing and
//! never changes the length of the region. The start of channel `c` is
//! computed where it is needed, as `c * frames`.

use vstd::prelude::*;
use crate::planar::{all_default, Planar};
use crate::slicing::{
    channel_window, channel_window_mut, clamp_length, clamp_range, clear_leading, fill_default,
    window_array, window_array_mut,
};
use core::ops::Range;

verus! {

/// A read-only planar view of a borrowed region, with `CHANNELS` channels.
#[derive(Debug)]
pub struct ChannelBufferRef<'a, T: Clone + Copy + Default, const CHANNELS: usize> {
    data: &'a [T],
    frames: usize,
}

impl<'a, T: Clone + Copy + Default, const CHANNELS: usize> View
    for ChannelBufferRef<'a, T, CHANNELS> {
    type V = Planar<T>;

    closed spec fn view(&self) -> Planar<T> {
        Planar { raw: self.data@, channels: CHANNELS as nat, frames: self.frames as nat }
    }
}

impl<'a, T: Clone + Copy + Default, const CHANNELS: usize> ChannelBufferRef<'a, T, CHANNELS> {
    /// The borrowed region holds every channel in full.
    pub closed spec fn wf(&self) -> bool {
        CHANNELS * self.frames <= self.data@.len()
    }

    /// A well-formed view reads `CHANNELS` channels that fit its region.
    pub proof fn lemma_wf(&self)
        requires
            self.wf(),
        ensures
            self@.channels == CHANNELS,
            self@.fits(),
            self@.frames <= usize::MAX,
            self@.raw.len() <= usize::MAX,
    {
        assert(self.data@.len() == self.data.len());
    }

    /// A view of no samples.
    pub fn empty() -> (out: Self)
        ensures
            out.wf(),
            out@ == Planar::of(Seq::<T>::empty(), CHANNELS as nat, 0),
    {
        let data: &'a [T] = &[];
        proof {
            assert(CHANNELS * 0 == 0);
            assert(data@ =~= Seq::<T>::empty());
        }
        ChannelBufferRef { data, frames: 0 }
    }

    /// A view of `data` with as many frames as `data` can fill in every
    /// channel.
    pub fn new(data: &'a [T]) -> (out: Self)
        requires
            CHANNELS > 0,
        ensures
            out.wf(),
            out@ == Planar::of(data@, CHANNELS as nat, data@.len() / (CHANNELS as nat)),
    {
        let frames = data.len() / CHANNELS;
        proof {
            vstd::arithmetic::div_mod::lemma_fundamental_div_mod(data.len() as int, CHANNELS as int);
        }
        ChannelBufferRef { data, frames }
    }

    /// A view of `data` with `frames` frames in every channel, where the
    /// caller knows that `data` holds them.
    pub fn new_unchecked(data: &'a [T], frames: usize) -> (out: Self)
        requires
            CHANNELS * frames <= data@.len(),
        ensures
            out.wf(),
            out@ == Planar::of(data@, CHANNELS as nat, frames as nat),
    {
        ChannelBufferRef { data, frames }
    }

    /// The number of frames in every channel.
    pub fn frames(&self) -> (frames: usize)
        ensures
            frames == self@.frames,
    {
        self.frames
    }

    /// The number of channels.
    pub fn channels(&self) -> (channels: usize)
        ensures
            channels == CHANNELS,
            channels == self@.channels,
    {
        CHANNELS
    }

    /// Channel `index`, or `None` where there is no such channel.
    pub fn channel(&self, index: usize) -> (out: Option<&[T]>)
        requires
            self.wf(),
        ensures
            (match out {
                Some(channel) => {
                    &&& index < CHANNELS
                    &&& channel@ == self@.channel(index as int)
                    &&& channel@.len() == self@.frames
                },
                None => index >= CHANNELS,
            }),
    {
        if index < CHANNELS {
            Some(self.channel_unchecked(index))
        } else {
            None
        }
    }

    /// Channel `index`, which the caller knows to exist.
    pub fn channel_unchecked(&self, index: usize) -> (out: &[T])
        requires
            self.wf(),
            index < CHANNELS,
        ensures
            out@ == self@.channel(index as int),
            out@.len() == self@.frames,
    {
        proof {
            assert((index + 1) * self.frames <= CHANNELS * self.frames) by (nonlinear_arith)
                requires
                    index < CHANNELS,
            ;
        }
        channel_window(self.data, self.frames, index, 0, self.frames)
    }

    /// Every channel, in channel order.
    pub fn as_slices(&self) -> (out: [&[T]; CHANNELS])
        requires
            self.wf(),
        ensures
            forall|c: int|
                #![trigger out@[c]]
                0 <= c < CHANNELS ==> ({
                    &&& out@[c]@ == self@.channel(c)
                    &&& out@[c]@.len() == self@.frames
                }),
    {
        window_array(self.data, self.frames, 0, self.frames)
    }

    /// The first `frames` frames of every channel, or the whole channel where
    /// it holds fewer.
    pub fn as_slices_with_length(&self, frames: usize) -> (out: [&[T]; CHANNELS])
        requires
            self.wf(),
        ensures
            forall|c: int|
                #![trigger out@[c]]
                0 <= c < CHANNELS ==> ({
                    &&& out@[c]@ == self@.window(c, 0, self@.clamp(frames as int))
                    &&& out@[c]@.len() == self@.clamp(frames as int)
                }),
    {
        let len = clamp_length(frames, self.frames);
        window_array(self.data, self.frames, 0, len)
    }

    /// The frames `range` of every channel, as far as the channel holds them.
    pub fn as_slices_with_range(&self, range: Range<usize>) -> (out: [&[T]; CHANNELS])
        requires
            self.wf(),
        ensures
            forall|c: int|
                #![trigger out@[c]]
                0 <= c < CHANNELS ==> ({
                    &&& out@[c]@ == self@.window(
                        c,
                        self@.clamp(range.start as int),
                        self@.clamp_span(range.start as int, range.end as int),
                    )
                    &&& out@[c]@.len() == self@.clamp_span(range.start as int, range.end as int)
                }),
    {
        let (first, len) = clamp_range(range, self.frames);
        window_array(self.data, self.frames, first, len)
    }

    /// The whole region.
    pub fn raw(&self) -> (out: &[T])
        ensures
            out@ == self@.raw,
    {
        self.data
    }
}

impl<'a, T: Clone + Copy + Default, const CHANNELS: usize> Clone
    for ChannelBufferRef<'a, T, CHANNELS> {
    /// Another view of the same region.
    fn clone(&self) -> (out: Self)
        ensures
            out == *self,
    {
        ChannelBufferRef { data: self.data, frames: self.frames }
    }
}

impl<'a, T: Clone + Copy + Default, const CHANNELS: usize> Copy
    for ChannelBufferRef<'a, T, CHANNELS> {

}

impl<'a, T: Clone + Copy + Default, const CHANNELS: usize> Default
    for ChannelBufferRef<'a, T, CHANNELS> {
    /// A view of no samples.
    fn default() -> (out: Self)
        ensures
            out.wf(),
            out@ == Planar::of(Seq::<T>::empty(), CHANNELS as nat, 0),
    {
        Self::empty()
    }
}

impl<'a, T: Clone + Copy + Default, const CHANNELS: usize> std::ops::Index<usize>
    for ChannelBufferRef<'a, T, CHANNELS> {
    type Output = [T];

    /// Channel `index`.
    fn index(&self, index: usize) -> (out: &[T])
        ensures
            out@ == self@.channel(index as int),
            out@.len() == self@.frames,
    {
        self.channel_unchecked(index)
    }
}

impl<'a, T: Clone + Copy + Default, const CHANNELS: usize> vstd::std_specs::core::IndexSpecImpl<usize>
    for ChannelBufferRef<'a, T, CHANNELS> {
    /// Indexing asks for a well-formed view and a channel that exists.
    open spec fn index_req(&self, index: &usize) -> bool {
        self.wf() && *index < CHANNELS
    }
}

/// A planar view of an exclusively borrowed region, with `CHANNELS` channels,
/// for reading and writing.
///
/// What is written through the view is written to the lender's region:
/// [`Self::source`] names the reference that the view holds, and every
/// function that writes says that the view still holds it.
#[derive(Debug)]
pub struct ChannelBufferRefMut<'a, T: Clone + Copy + Default, const CHANNELS: usize> {
    data: &'a mut [T],
    frames: usize,
}

impl<'a, T: Clone + Copy + Default, const CHANNELS: usize> View
    for ChannelBufferRefMut<'a, T, CHANNELS> {
    type V = Planar<T>;

    closed spec fn view(&self) -> Planar<T> {
        Planar { raw: self.data@, channels: CHANNELS as nat, frames: self.frames as nat }
    }
}

impl<'a, T: Clone + Copy + Default, const CHANNELS: usize> ChannelBufferRefMut<'a, T, CHANNELS> {
    /// The borrowed region holds every channel in full.
    pub closed spec fn wf(&self) -> bool {
        CHANNELS * self.frames <= self.data@.len()
    }

    /// The reference that the view was made from. Its final value is what the
    /// lender finds in the region once the view is gone.
    pub closed spec fn source(&self) -> &'a mut [T] {
        self.data
    }

    /// A well-formed view reads `CHANNELS` channels that fit its region.
    pub proof fn lemma_wf(&self)
        requires
            self.wf(),
        ensures
            self@.channels == CHANNELS,
            self@.fits(),
            self@.frames <= usize::MAX,
            self@.raw.len() <= usize::MAX,
    {
        assert(self.data@.len() == self.data.len());
    }

    /// A view that has been used for the last time leaves its region as the
    /// view reads.
    pub proof fn lemma_released(self)
        requires
            has_resolved(self),
        ensures
            final(self.source())@ == self@.raw,
    {
    }

    /// A view of no samples.
    pub fn empty() -> (out: Self)
        ensures
            out.wf(),
            out@ == Planar::of(Seq::<T>::empty(), CHANNELS as nat, 0),
    {
        let data: &'a mut [T] = &mut [];
        proof {
            assert(CHANNELS * 0 == 0);
            assert(data@ =~= Seq::<T>::empty());
        }
        ChannelBufferRefMut { data, frames: 0 }
    }

    /// A view of `data` with as many frames as `data` can fill in every
    /// channel.
    pub fn new(data: &'a mut [T]) -> (out: Self)
        requires
            CHANNELS > 0,
        ensures
            out.wf(),
            out@ == Planar::of(old(data)@, CHANNELS as nat, old(data)@.len() / (CHANNELS as nat)),
            final(out.source())@ == final(data)@,
    {
        let frames = data.len() / CHANNELS;
        proof {
            vstd::arithmetic::div_mod::lemma_fundamental_div_mod(data.len() as int, CHANNELS as int);
        }
        ChannelBufferRefMut { data, frames }
    }

    /// A view of `data` with `frames` frames in every channel, where the
    /// caller knows that `data` holds them.
    pub fn new_unchecked(data: &'a mut [T], frames: usize) -> (out: Self)
        requires
            CHANNELS * frames <= old(data)@.len(),
        ensures
            out.wf(),
            out@ == Planar::of(old(data)@, CHANNELS as nat, frames as nat),
            final(out.source())@ == final(data)@,
    {
        ChannelBufferRefMut { data, frames }
    }

    /// The view, with the right to write given up.
    pub fn into_ref(self) -> (out: ChannelBufferRef<'a, T, CHANNELS>)
        ensures
            out@ == self@,
            self.wf() ==> out.wf(),
            final(self.source())@ == self@.raw,
    {
        ChannelBufferRef { data: self.data, frames: self.frames }
    }

    /// The borrowed region, for reading, with the view given up.
    pub fn into_raw(self) -> (out: &'a [T])
        ensures
            out@ == self@.raw,
            final(self.source())@ == self@.raw,
    {
        self.data
    }

    /// The borrowed region itself, with the view given up.
    pub fn into_raw_mut(self) -> (out: &'a mut [T])
        ensures
            out@ == self@.raw,
            final(out)@ == final(self.source())@,
    {
        self.data
    }

    /// The number of frames in every channel.
    pub fn frames(&self) -> (frames: usize)
        ensures
            frames == self@.frames,
    {
        self.frames
    }

    /// The number of channels.
    pub fn channels(&self) -> (channels: usize)
        ensures
            channels == CHANNELS,
            channels == self@.channels,
    {
        CHANNELS
    }

    /// Channel `index`, or `None` where there is no such channel.
    pub fn channel(&self, index: usize) -> (out: Option<&[T]>)
        requires
            self.wf(),
        ensures
            (match out {
                Some(channel) => {
                    &&& index < CHANNELS
                    &&& channel@ == self@.channel(index as int)
                    &&& channel@.len() == self@.frames
                },
                None => index >= CHANNELS,
            }),
    {
        if index < CHANNELS {
            Some(self.channel_unchecked(index))
        } else {
            None
        }
    }

    /// Channel `index`, which the caller knows to exist.
    pub fn channel_unchecked(&self, index: usize) -> (out: &[T])
        requires
            self.wf(),
            index < CHANNELS,
        ensures
            out@ == self@.channel(index as int),
            out@.len() == self@.frames,
    {
        proof {
            assert((index + 1) * self.frames <= CHANNELS * self.frames) by (nonlinear_arith)
                requires
                    index < CHANNELS,
            ;
        }
        channel_window(&*self.data, self.frames, index, 0, self.frames)
    }

    /// Channel `index` for writing, or `None` where there is no such channel.
    /// What is written to the slice is written to that channel, and to
    /// nothing else.
    pub fn channel_mut(&mut self, index: usize) -> (out: Option<&mut [T]>)
        requires
            old(self).wf(),
        ensures
            (match out {
                Some(channel) => {
                    &&& index < CHANNELS
                    &&& channel@ == old(self)@.channel(index as int)
                    &&& channel@.len() == old(self)@.frames
                    &&& final(self)@ == old(self)@.with_window(
                        index as int,
                        0,
                        old(self)@.frames as int,
                        final(channel)@,
                    )
                    &&& final(channel)@.len() == channel@.len() ==> final(self).wf()
                },
                None => index >= CHANNELS && final(self)@ == old(self)@ && final(self).wf(),
            }),
            final(final(self).source())@ == final(old(self).source())@,
    {
        if index < CHANNELS {
            Some(self.channel_unchecked_mut(index))
        } else {
            None
        }
    }

    /// Channel `index`, which the caller knows to exist, for writing. What is
    /// written to the slice is written to that channel, and to nothing else.
    pub fn channel_unchecked_mut(&mut self, index: usize) -> (out: &mut [T])
        requires
            old(self).wf(),
            index < CHANNELS,
        ensures
            out@ == old(self)@.channel(index as int),
            out@.len() == old(self)@.frames,
            final(self)@ == old(self)@.with_window(
                index as int,
                0,
                old(self)@.frames as int,
                final(out)@,
            ),
            final(out)@.len() == out@.len() ==> final(self).wf(),
            final(final(self).source())@ == final(old(self).source())@,
    {
        proof {
            assert((index + 1) * self.frames <= CHANNELS * self.frames && 0 <= index * self.frames
                && (index + 1) * self.frames == index * self.frames + self.frames)
                by (nonlinear_arith)
                requires
                    index < CHANNELS,
            ;
        }
        channel_window_mut(&mut *self.data, self.frames, index, 0, self.frames)
    }

    /// Every channel, in channel order.
    pub fn as_slices(&self) -> (out: [&[T]; CHANNELS])
        requires
            self.wf(),
        ensures
            forall|c: int|
                #![trigger out@[c]]
                0 <= c < CHANNELS ==> ({
                    &&& out@[c]@ == self@.channel(c)
                    &&& out@[c]@.len() == self@.frames
                }),
    {
        window_array(&*self.data, self.frames, 0, self.frames)
    }

    /// Every channel for writing, in channel order. No two of the slices
    /// share a sample: what is written to one is written to its channel, and
    /// to nothing else.
    pub fn as_mut_slices(&mut self) -> (out: [&mut [T]; CHANNELS])
        requires
            old(self).wf(),
        ensures
            forall|c: int|
                #![trigger out@[c]]
                0 <= c < CHANNELS ==> ({
                    &&& out@[c]@ == old(self)@.channel(c)
                    &&& out@[c]@.len() == old(self)@.frames
                }),
            final(self)@ == old(self)@.with_windows(
                0,
                old(self)@.frames as int,
                out@.map_values(|s: &mut [T]| final(s)@),
            ),
            old(self)@.parts_fit(
                old(self)@.frames as int,
                out@.map_values(|s: &mut [T]| final(s)@),
            ) ==> final(self).wf(),
            final(final(self).source())@ == final(old(self).source())@,
    {
        let frames = self.frames;
        self.windows_mut(0, frames)
    }

    /// The first `frames` frames of every channel, or the whole channel where
    /// it holds fewer.
    pub fn as_slices_with_length(&self, frames: usize) -> (out: [&[T]; CHANNELS])
        requires
            self.wf(),
        ensures
            forall|c: int|
                #![trigger out@[c]]
                0 <= c < CHANNELS ==> ({
                    &&& out@[c]@ == self@.window(c, 0, self@.clamp(frames as int))
                    &&& out@[c]@.len() == self@.clamp(frames as int)
                }),
    {
        let len = clamp_length(frames, self.frames);
        window_array(&*self.data, self.frames, 0, len)
    }

    /// The first `frames` frames of every channel for writing, or the whole
    /// channel where it holds fewer. The later frames stay as they are.
    pub fn as_mut_slices_with_length(&mut self, frames: usize) -> (out: [&mut [T]; CHANNELS])
        requires
            old(self).wf(),
        ensures
            forall|c: int|
                #![trigger out@[c]]
                0 <= c < CHANNELS ==> ({
                    &&& out@[c]@ == old(self)@.window(c, 0, old(self)@.clamp(frames as int))
                    &&& out@[c]@.len() == old(self)@.clamp(frames as int)
                }),
            final(self)@ == old(self)@.with_windows(
                0,
                old(self)@.clamp(frames as int),
                out@.map_values(|s: &mut [T]| final(s)@),
            ),
            old(self)@.parts_fit(
                old(self)@.clamp(frames as int),
                out@.map_values(|s: &mut [T]| final(s)@),
            ) ==> final(self).wf(),
            final(final(self).source())@ == final(old(self).source())@,
    {
        let len = clamp_length(frames, self.frames);
        self.windows_mut(0, len)
    }

    /// The frames `range` of every channel, as far as the channel holds them.
    pub fn as_slices_with_range(&self, range: Range<usize>) -> (out: [&[T]; CHANNELS])
        requires
            self.wf(),
        ensures
            forall|c: int|
                #![trigger out@[c]]
                0 <= c < CHANNELS ==> ({
                    &&& out@[c]@ == self@.window(
                        c,
                        self@.clamp(range.start as int),
                        self@.clamp_span(range.start as int, range.end as int),
                    )
                    &&& out@[c]@.len() == self@.clamp_span(range.start as int, range.end as int)
                }),
    {
        let (first, len) = clamp_range(range, self.frames);
        window_array(&*self.data, self.frames, first, len)
    }

    /// The frames `range` of every channel for writing, as far as the channel
    /// holds them. The frames outside the range stay as they are.
    pub fn as_mut_slices_with_range(&mut self, range: Range<usize>) -> (out: [&mut [T]; CHANNELS])
        requires
            old(self).wf(),
        ensures
            forall|c: int|
                #![trigger out@[c]]
                0 <= c < CHANNELS ==> ({
                    &&& out@[c]@ == old(self)@.window(
                        c,
                        old(self)@.clamp(range.start as int),
                        old(self)@.clamp_span(range.start as int, range.end as int),
                    )
                    &&& out@[c]@.len() == old(self)@.clamp_span(range.start as int, range.end as int)
                }),
            final(self)@ == old(self)@.with_windows(
                old(self)@.clamp(range.start as int),
                old(self)@.clamp_span(range.start as int, range.end as int),
                out@.map_values(|s: &mut [T]| final(s)@),
            ),
            old(self)@.parts_fit(
                old(self)@.clamp_span(range.start as int, range.end as int),
                out@.map_values(|s: &mut [T]| final(s)@),
            ) ==> final(self).wf(),
            final(final(self).source())@ == final(old(self).source())@,
    {
        let (first, len) = clamp_range(range, self.frames);
        self.windows_mut(first, len)
    }

    /// The whole region.
    pub fn raw(&self) -> (out: &[T])
        ensures
            out@ == self@.raw,
    {
        &*self.data
    }

    /// The whole region, for writing.
    pub fn raw_mut(&mut self) -> (out: &mut [T])
        ensures
            out@ == old(self)@.raw,
            final(self)@ == old(self)@.with_raw(final(out)@),
            old(self).wf() && final(out)@.len() == out@.len() ==> final(self).wf(),
            final(final(self).source())@ == final(old(self).source())@,
    {
        &mut *self.data
    }

    /// Overwrites every sample of the region with the default value.
    pub fn clear(&mut self)
        ensures
            final(self)@.channels == old(self)@.channels,
            final(self)@.frames == old(self)@.frames,
            final(self)@.raw.len() == old(self)@.raw.len(),
            all_default(final(self)@.raw),
            old(self).wf() ==> final(self).wf(),
            final(final(self).source())@ == final(old(self).source())@,
    {
        let len = self.data.len();
        fill_default(&mut *self.data, 0, len);
        proof {
            assert(self.data@.subrange(0, len as int) =~= self.data@);
        }
    }

    /// Overwrites the first `frames` frames of every channel with the default
    /// value, or the whole channel where it holds fewer. The later frames of
    /// each channel, and what follows the last channel, stay as they are.
    pub fn clear_frames(&mut self, frames: usize)
        requires
            old(self).wf(),
        ensures
            final(self).wf(),
            old(self)@.cleared(old(self)@.clamp(frames as int), final(self)@),
            final(final(self).source())@ == final(old(self).source())@,
    {
        let len = clamp_length(frames, self.frames);
        clear_leading(&mut *self.data, CHANNELS, self.frames, len);
    }

    fn windows_mut(&mut self, first: usize, len: usize) -> (out: [&mut [T]; CHANNELS])
        requires
            old(self).wf(),
            first + len <= old(self)@.frames,
        ensures
            forall|c: int|
                #![trigger out@[c]]
                0 <= c < CHANNELS ==> ({
                    &&& out@[c]@ == old(self)@.window(c, first as int, len as int)
                    &&& out@[c]@.len() == len
                }),
            final(self)@ == old(self)@.with_windows(
                first as int,
                len as int,
                out@.map_values(|s: &mut [T]| final(s)@),
            ),
            old(self)@.parts_fit(len as int, out@.map_values(|s: &mut [T]| final(s)@))
                ==> final(self).wf(),
            final(final(self).source())@ == final(old(self).source())@,
    {
        proof {
            assert forall|parts: Seq<Seq<T>>| self@.parts_fit(len as int, parts) implies (
            #[trigger] self@.with_windows(first as int, len as int, parts)).raw.len()
                == self@.raw.len() by {
                self@.lemma_with_windows(first as int, len as int, parts);
            }
        }
        window_array_mut(&mut *self.data, self.frames, first, len)
    }
}

impl<'a, T: Clone + Copy + Default, const CHANNELS: usize> Default
    for ChannelBufferRefMut<'a, T, CHANNELS> {
    /// A view of no samples.
    fn default() -> (out: Self)
        ensures
            out.wf(),
            out@ == Planar::of(Seq::<T>::empty(), CHANNELS as nat, 0),
    {
        Self::empty()
    }
}

impl<'a, T: Clone + Copy + Default, const CHANNELS: usize> std::ops::Index<usize>
    for ChannelBufferRefMut<'a, T, CHANNELS> {
    type Output = [T];

    /// Channel `index`.
    fn index(&self, index: usize) -> (out: &[T])
        ensures
            out@ == self@.channel(index as int),
            out@.len() == self@.frames,
    {
        self.channel_unchecked(index)
    }
}

impl<'a, T: Clone + Copy + Default, const CHANNELS: usize> vstd::std_specs::core::IndexSpecImpl<usize>
    for ChannelBufferRefMut<'a, T, CHANNELS> {
    /// Indexing asks for a well-formed view and a channel that exists.
    open spec fn index_req(&self, index: &usize) -> bool {
        self.wf() && *index < CHANNELS
    }
}

} // verus!
