//! An owned buffer that holds several instances of a fixed-channel layout in
//! one region.
//!
//! An instance is handed out as a view of its block of the region. The
//! functions that hand out every instance at once collect the views in a
//! `Vec`, in index order: they allocate, as the functions that make or resize
//! the buffer do.

use vstd::prelude::*;
use crate::const_buffer_ref::{ChannelBufferRef, ChannelBufferRefMut};
use crate::planar::{all_default, is_default};
use crate::slicing::{default_region, fill_default, resize_default, span, span_mut, start_table};
use crate::stacked::Stacked;

verus! {

/// The region `raw` read as `instances` blocks of `channels` channels of
/// `frames` frames.
pub open spec fn stack<T>(raw: Seq<T>, instances: usize, channels: usize, frames: usize) -> Stacked<
    T,
> {
    Stacked::of(raw, instances as nat, channels as nat, frames as nat)
}

/// One view per block of `instance_len` samples, for reading and writing, in
/// block order. The region is cut once, front to back, so no two views share
/// a sample.
pub fn block_views_mut<'a, T: Clone + Copy + Default, const CHANNELS: usize>(
    data: &'a mut [T],
    instances: usize,
    frames: usize,
    instance_len: usize,
) -> (out: Vec<ChannelBufferRefMut<'a, T, CHANNELS>>)
    requires
        instance_len == CHANNELS * frames,
        instances * instance_len <= old(data)@.len(),
    ensures
        out@.len() == instances,
        forall|i: int|
            #![trigger out@[i]]
            0 <= i < instances ==> ({
                &&& out@[i].wf()
                &&& out@[i]@ == stack(old(data)@, instances, CHANNELS, frames).instance(i)
            }),
        final(data)@ == stack(old(data)@, instances, CHANNELS, frames).with_instances(
            out@.map_values(|v: ChannelBufferRefMut<'a, T, CHANNELS>| final(v.source())@),
        ).raw,
{
    let ghost s = stack(data@, instances, CHANNELS, frames);
    let ghost p = s.blocks();
    let ghost total = data@.len();
    proof {
        assert(data@.len() == data.len());
    }
    let mut out: Vec<ChannelBufferRefMut<'a, T, CHANNELS>> = Vec::with_capacity(instances);
    let mut rest: &'a mut [T] = &mut *data;
    let mut i: usize = 0;
    while i < instances
        invariant
            i <= instances,
            instance_len == CHANNELS * frames,
            instances * instance_len <= total,
            total <= usize::MAX,
            s == stack(p.raw, instances, CHANNELS, frames),
            p == s.blocks(),
            p.raw.len() == total,
            out@.len() == i,
            rest@ == p.raw.subrange(i * instance_len, total as int),
            forall|k: int|
                #![trigger out@[k]]
                0 <= k < i ==> out@[k].wf() && out@[k]@ == s.instance(k),
            after_borrow(data)@ == p.channels_with(
                0,
                instance_len as int,
                out@.map_values(|v: ChannelBufferRefMut<'a, T, CHANNELS>| final(v.source())@),
                i as nat,
            ) + final(rest)@,
        decreases instances - i,
    {
        proof {
            assert((i + 1) * instance_len <= instances * instance_len && (i + 1) * instance_len == i
                * instance_len + instance_len && 0 <= i * instance_len) by (nonlinear_arith)
                requires
                    i < instances,
            ;
        }
        let ghost before = out@.map_values(
            |v: ChannelBufferRefMut<'a, T, CHANNELS>| final(v.source())@,
        );
        let (block, tail) = rest.split_at_mut(instance_len);
        let view = ChannelBufferRefMut::new_unchecked(block, frames);
        out.push(view);
        rest = tail;
        proof {
            let after = out@.map_values(
                |v: ChannelBufferRefMut<'a, T, CHANNELS>| final(v.source())@,
            );
            let here = p.raw.subrange(i * instance_len, total as int);
            p.lemma_channels_with_reads_prefix(0, instance_len as int, before, after, i as nat);
            assert(here.subrange(0, instance_len as int) =~= p.channel(i as int));
        }
        i = i + 1;
    }
    out
}

/// A buffer that owns its region and reads it as a number of instances, each
/// of them `CHANNELS` channels of the same number of frames.
///
/// The number of instances is chosen when the buffer is made and may be
/// changed later; an empty buffer has `INSTANCES` instances of no samples.
/// The region is exactly `instances * CHANNELS * frames` samples. The start of
/// every instance is kept in a table that is computed anew whenever the
/// region changes its size.
#[derive(Debug)]
pub struct InstanceChannelBuffer<
    T: Clone + Copy + Default,
    const INSTANCES: usize,
    const CHANNELS: usize,
> {
    data: Vec<T>,
    offsets: Vec<usize>,
    frames: usize,
    instance_length: usize,
}

impl<T: Clone + Copy + Default, const INSTANCES: usize, const CHANNELS: usize> View
    for InstanceChannelBuffer<T, INSTANCES, CHANNELS> {
    type V = Stacked<T>;

    closed spec fn view(&self) -> Stacked<T> {
        Stacked {
            raw: self.data@,
            instances: self.offsets@.len(),
            channels: CHANNELS as nat,
            frames: self.frames as nat,
        }
    }
}

impl<T: Clone + Copy + Default, const INSTANCES: usize, const CHANNELS: usize> InstanceChannelBuffer<
    T,
    INSTANCES,
    CHANNELS,
> {
    /// The region holds the instances and nothing else, and the table holds
    /// the start of every instance.
    pub closed spec fn wf(&self) -> bool {
        &&& self.instance_length == CHANNELS * self.frames
        &&& self.data@.len() == self.offsets@.len() * self.instance_length
        &&& forall|i: int|
            0 <= i < self.offsets@.len() ==> #[trigger] self.offsets@[i] == i * self.instance_length
    }

    /// A well-formed buffer reads instances of `CHANNELS` channels that fill
    /// its region.
    pub proof fn lemma_wf(&self)
        requires
            self.wf(),
        ensures
            self@.channels == CHANNELS,
            self@.exact(),
            self@.instances <= usize::MAX,
            self@.frames <= usize::MAX,
            self@.instance_len() <= usize::MAX,
            self@.raw.len() <= usize::MAX,
    {
        assert(self.data@.len() == self.data.len());
        assert(self.offsets@.len() == self.offsets.len());
    }

    /// A buffer of `INSTANCES` instances of no samples.
    pub fn empty() -> (out: Self)
        ensures
            out.wf(),
            out@ == stack(Seq::<T>::empty(), INSTANCES, CHANNELS, 0),
    {
        let data: Vec<T> = Vec::new();
        let offsets = start_table(INSTANCES, 0);
        InstanceChannelBuffer { data, offsets, frames: 0, instance_length: 0 }
    }

    /// A buffer of `num_instances` instances of `frames` frames in every
    /// channel, each sample the default value.
    pub fn new(num_instances: usize, frames: usize) -> (out: Self)
        requires
            CHANNELS * frames <= usize::MAX,
            num_instances * (CHANNELS * frames) <= usize::MAX,
        ensures
            out.wf(),
            out@.instances == num_instances,
            out@.channels == CHANNELS,
            out@.frames == frames,
            out@.raw.len() == num_instances * (CHANNELS * frames),
            all_default(out@.raw),
    {
        let instance_length = frames * CHANNELS;
        proof {
            assert(instance_length * num_instances == num_instances * instance_length)
                by (nonlinear_arith);
        }
        let buffer_len = instance_length * num_instances;
        let data = default_region(buffer_len);
        let offsets = start_table(num_instances, instance_length);
        InstanceChannelBuffer { data, offsets, frames, instance_length }
    }

    /// A buffer of `num_instances` instances of `frames` frames in every
    /// channel, of which the samples are left for the caller to write:
    /// nothing is promised of what they hold.
    pub fn new_uninit(num_instances: usize, frames: usize) -> (out: Self)
        requires
            CHANNELS * frames <= usize::MAX,
            num_instances * (CHANNELS * frames) <= usize::MAX,
        ensures
            out.wf(),
            out@.instances == num_instances,
            out@.channels == CHANNELS,
            out@.frames == frames,
            out@.raw.len() == num_instances * (CHANNELS * frames),
    {
        Self::new(num_instances, frames)
    }

    /// The number of instances.
    pub fn num_instances(&self) -> (instances: usize)
        ensures
            instances == self@.instances,
    {
        self.offsets.len()
    }

    /// The number of channels of every instance.
    pub fn channels(&self) -> (channels: usize)
        ensures
            channels == CHANNELS,
            channels == self@.channels,
    {
        CHANNELS
    }

    /// The number of frames in every channel.
    pub fn frames(&self) -> (frames: usize)
        ensures
            frames == self@.frames,
    {
        self.frames
    }

    /// Changes the number of instances to `num_instances`. The instances that
    /// stay keep their samples; the instances that are added hold the
    /// default value. With the number that the buffer has, nothing changes.
    ///
    /// This may allocate: it is not for the audio path.
    pub fn set_num_instances(&mut self, num_instances: usize)
        requires
            old(self).wf(),
            num_instances * old(self)@.instance_len() <= usize::MAX,
        ensures
            final(self).wf(),
            old(self)@.resized(num_instances as nat, final(self)@),
            old(self)@.grown_default(final(self)@),
    {
        self.resize(num_instances);
    }

    /// Changes the number of instances to `num_instances`. The instances that
    /// stay keep their samples; the samples of the instances that are added
    /// are left for the caller to write, and nothing is promised of what they
    /// hold. With the number that the buffer has, nothing changes.
    ///
    /// This may allocate: it is not for the audio path.
    pub fn set_num_instances_uninit(&mut self, num_instances: usize)
        requires
            old(self).wf(),
            num_instances * old(self)@.instance_len() <= usize::MAX,
        ensures
            final(self).wf(),
            old(self)@.resized(num_instances as nat, final(self)@),
    {
        self.resize(num_instances);
    }

    /// Instance `index`, or `None` where there is no such instance.
    pub fn instance<'a>(&'a self, index: usize) -> (out: Option<ChannelBufferRef<'a, T, CHANNELS>>)
        requires
            self.wf(),
        ensures
            (match out {
                Some(view) => {
                    &&& index < self@.instances
                    &&& view.wf()
                    &&& view@ == self@.instance(index as int)
                },
                None => index >= self@.instances,
            }),
    {
        if index < self.offsets.len() {
            Some(self.instance_unchecked(index))
        } else {
            None
        }
    }

    /// Instance `index`, which the caller knows to exist.
    pub fn instance_unchecked<'a>(&'a self, index: usize) -> (out: ChannelBufferRef<
        'a,
        T,
        CHANNELS,
    >)
        requires
            self.wf(),
            index < self@.instances,
        ensures
            out.wf(),
            out@ == self@.instance(index as int),
    {
        proof {
            self.lemma_starts_fit();
        }
        let block = span(self.data.as_slice(), self.offsets[index], self.instance_length);
        ChannelBufferRef::new_unchecked(block, self.frames)
    }

    /// Instance `index` for reading and writing, or `None` where there is no
    /// such instance. What is written through the view is written to that
    /// instance, and to nothing else.
    pub fn instance_mut<'a>(&'a mut self, index: usize) -> (out: Option<
        ChannelBufferRefMut<'a, T, CHANNELS>,
    >)
        requires
            old(self).wf(),
        ensures
            (match out {
                Some(view) => {
                    &&& index < old(self)@.instances
                    &&& view.wf()
                    &&& view@ == old(self)@.instance(index as int)
                    &&& final(self)@ == old(self)@.with_instance(
                        index as int,
                        final(view.source())@,
                    )
                    &&& final(view.source())@.len() == view@.raw.len() ==> final(self).wf()
                },
                None => {
                    &&& index >= old(self)@.instances
                    &&& final(self)@ == old(self)@
                    &&& final(self).wf()
                },
            }),
    {
        if index < self.offsets.len() {
            Some(self.instance_unchecked_mut(index))
        } else {
            None
        }
    }

    /// Instance `index`, which the caller knows to exist, for reading and
    /// writing. What is written through the view is written to that
    /// instance, and to nothing else.
    pub fn instance_unchecked_mut<'a>(&'a mut self, index: usize) -> (out: ChannelBufferRefMut<
        'a,
        T,
        CHANNELS,
    >)
        requires
            old(self).wf(),
            index < old(self)@.instances,
        ensures
            out.wf(),
            out@ == old(self)@.instance(index as int),
            final(self)@ == old(self)@.with_instance(index as int, final(out.source())@),
            final(out.source())@.len() == out@.raw.len() ==> final(self).wf(),
    {
        proof {
            self.lemma_starts_fit();
        }
        let lo = self.offsets[index];
        let frames = self.frames;
        let block = span_mut(self.data.as_mut_slice(), lo, self.instance_length);
        ChannelBufferRefMut::new_unchecked(block, frames)
    }

    /// Every instance, in index order.
    pub fn all_instances<'a>(&'a self) -> (out: Vec<ChannelBufferRef<'a, T, CHANNELS>>)
        requires
            self.wf(),
        ensures
            out@.len() == self@.instances,
            forall|i: int|
                #![trigger out@[i]]
                0 <= i < self@.instances ==> out@[i].wf() && out@[i]@ == self@.instance(i),
    {
        let instances = self.offsets.len();
        let mut out: Vec<ChannelBufferRef<'a, T, CHANNELS>> = Vec::with_capacity(instances);
        let mut i: usize = 0;
        while i < self.offsets.len()
            invariant
                self.wf(),
                i <= self@.instances,
                self@.instances == self.offsets.len(),
                out@.len() == i,
                forall|k: int|
                    #![trigger out@[k]]
                    0 <= k < i ==> out@[k].wf() && out@[k]@ == self@.instance(k),
            decreases self@.instances - i,
        {
            let view = self.instance_unchecked(i);
            out.push(view);
            i = i + 1;
        }
        out
    }

    /// Every instance for reading and writing, in index order. No two of the
    /// views share a sample: what is written through one is written to its
    /// instance, and to nothing else.
    pub fn all_instances_mut<'a>(&'a mut self) -> (out: Vec<ChannelBufferRefMut<'a, T, CHANNELS>>)
        requires
            old(self).wf(),
        ensures
            out@.len() == old(self)@.instances,
            forall|i: int|
                #![trigger out@[i]]
                0 <= i < old(self)@.instances ==> ({
                    &&& out@[i].wf()
                    &&& out@[i]@ == old(self)@.instance(i)
                }),
            final(self)@ == old(self)@.with_instances(
                out@.map_values(|v: ChannelBufferRefMut<'a, T, CHANNELS>| final(v.source())@),
            ),
            old(self)@.blocks().parts_fit(
                old(self)@.instance_len() as int,
                out@.map_values(|v: ChannelBufferRefMut<'a, T, CHANNELS>| final(v.source())@),
            ) ==> final(self).wf(),
    {
        proof {
            let p = self@.blocks();
            let len = self@.instance_len() as int;
            assert forall|parts: Seq<Seq<T>>| p.parts_fit(len, parts) implies (
            #[trigger] p.with_windows(0, len, parts)).raw.len() == p.raw.len() by {
                p.lemma_with_windows(0, len, parts);
            }
        }
        let instances = self.offsets.len();
        let frames = self.frames;
        let len = self.instance_length;
        block_views_mut(self.data.as_mut_slice(), instances, frames, len)
    }

    /// The whole region.
    pub fn raw(&self) -> (out: &[T])
        ensures
            out@ == self@.raw,
    {
        self.data.as_slice()
    }

    /// The whole region, for writing.
    pub fn raw_mut(&mut self) -> (out: &mut [T])
        ensures
            out@ == old(self)@.raw,
            final(self)@ == old(self)@.with_raw(final(out)@),
            old(self).wf() && final(out)@.len() == out@.len() ==> final(self).wf(),
    {
        self.data.as_mut_slice()
    }

    /// Overwrites every sample with the default value.
    pub fn clear(&mut self)
        ensures
            final(self)@.instances == old(self)@.instances,
            final(self)@.channels == old(self)@.channels,
            final(self)@.frames == old(self)@.frames,
            final(self)@.raw.len() == old(self)@.raw.len(),
            all_default(final(self)@.raw),
            old(self).wf() ==> final(self).wf(),
    {
        let len = self.data.len();
        fill_default(self.data.as_mut_slice(), 0, len);
        proof {
            assert(self.data@.subrange(0, len as int) =~= self.data@);
        }
    }

    /// The region, given up by the buffer.
    pub fn into_vec(self) -> (out: Vec<T>)
        ensures
            out@ == self@.raw,
    {
        self.data
    }

    /// In a well-formed buffer every instance lies within the region, from
    /// the start that the table holds for it.
    proof fn lemma_starts_fit(&self)
        requires
            self.wf(),
        ensures
            forall|i: int|
                0 <= i < self.offsets@.len() ==> #[trigger] self.offsets@[i] + self.instance_length
                    <= self.data@.len(),
            forall|i: int|
                0 <= i < self.offsets@.len() ==> #[trigger] self.offsets@[i] == self@.blocks().start(
                    i,
                ),
    {
        assert forall|i: int| 0 <= i < self.offsets@.len() implies #[trigger] self.offsets@[i]
            + self.instance_length <= self.data@.len() by {
            assert(i * self.instance_length + self.instance_length <= self.offsets@.len()
                * self.instance_length) by (nonlinear_arith)
                requires
                    0 <= i < self.offsets@.len(),
            ;
        }
    }

    fn resize(&mut self, num_instances: usize)
        requires
            old(self).wf(),
            num_instances * old(self)@.instance_len() <= usize::MAX,
        ensures
            final(self).wf(),
            old(self)@.resized(num_instances as nat, final(self)@),
            old(self)@.grown_default(final(self)@),
    {
        if num_instances == self.offsets.len() {
            proof {
                assert(self@.raw.subrange(0, self@.raw.len() as int) =~= self@.raw);
            }
            return ;
        }
        let ghost before = self@.blocks();
        let len = self.instance_length;
        resize_default(&mut self.data, num_instances * len);
        self.offsets = start_table(num_instances, len);
        proof {
            let after = self@.blocks();
            let kept: nat = if num_instances <= before.channels {
                num_instances as nat
            } else {
                before.channels
            };
            assert(kept * len <= before.raw.len() && kept * len <= after.raw.len() && (num_instances
                <= before.channels ==> num_instances * len <= before.raw.len()) && (num_instances
                >= before.channels ==> before.raw.len() <= num_instances * len)) by (nonlinear_arith)
                requires
                    kept <= num_instances,
                    kept <= before.channels,
                    kept == num_instances || kept == before.channels,
                    before.raw.len() == before.channels * len,
                    after.raw.len() == num_instances * len,
            ;
            assert(after.raw.subrange(0, (kept * len) as int) =~= before.raw.subrange(
                0,
                (kept * len) as int,
            ));
            after.lemma_shared_channels(before, kept);
            assert forall|i: int| before.channels <= i < after.channels implies all_default(
                #[trigger] after.channel(i),
            ) by {
                assert(i * len + len <= num_instances * len && before.channels * len <= i * len)
                    by (nonlinear_arith)
                    requires
                        before.channels <= i < num_instances,
                ;
                let added = after.raw.subrange(before.raw.len() as int, after.raw.len() as int);
                assert forall|k: int| 0 <= k < after.channel(i).len() implies is_default(
                    #[trigger] after.channel(i)[k],
                ) by {
                    assert(after.channel(i)[k] == added[i * len + k - before.raw.len()]);
                }
            }
        }
    }
}

impl<T: Clone + Copy + Default, const INSTANCES: usize, const CHANNELS: usize> Clone
    for InstanceChannelBuffer<T, INSTANCES, CHANNELS> {
    /// A buffer of its own with the same samples.
    fn clone(&self) -> (out: Self)
        ensures
            out@ == self@,
            self.wf() ==> out.wf(),
    {
        InstanceChannelBuffer {
            data: vstd::slice::slice_to_vec(self.data.as_slice()),
            offsets: vstd::slice::slice_to_vec(self.offsets.as_slice()),
            frames: self.frames,
            instance_length: self.instance_length,
        }
    }
}

impl<T: Clone + Copy + Default, const INSTANCES: usize, const CHANNELS: usize> Default
    for InstanceChannelBuffer<T, INSTANCES, CHANNELS> {
    /// A buffer of `INSTANCES` instances of no samples.
    fn default() -> (out: Self)
        ensures
            out.wf(),
            out@ == stack(Seq::<T>::empty(), INSTANCES, CHANNELS, 0),
    {
        Self::empty()
    }
}

} // verus!
