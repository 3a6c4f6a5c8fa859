//! The mathematical model of a region that holds several planar instances,
//! one after the other.

use vstd::prelude::*;
use crate::planar::Planar;

verus! {

/// A flat region read as `instances` consecutive blocks, each of them
/// `channels` channels of `frames` samples.
pub struct Stacked<T> {
    pub raw: Seq<T>,
    pub instances: nat,
    pub channels: nat,
    pub frames: nat,
}

impl<T> Stacked<T> {
    /// The region `raw` read as `instances` blocks of `channels` channels of
    /// `frames` frames.
    pub open spec fn of(raw: Seq<T>, instances: nat, channels: nat, frames: nat) -> Stacked<T> {
        Stacked { raw, instances, channels, frames }
    }

    /// The same layout over another region.
    pub open spec fn with_raw(self, raw: Seq<T>) -> Stacked<T> {
        Stacked { raw, instances: self.instances, channels: self.channels, frames: self.frames }
    }

    /// The number of samples of one instance.
    pub open spec fn instance_len(self) -> nat {
        self.channels * self.frames
    }

    /// The region read as one run of samples per instance.
    pub open spec fn blocks(self) -> Planar<T> {
        Planar { raw: self.raw, channels: self.instances, frames: self.instance_len() }
    }

    /// The region holds the instances and nothing else.
    pub open spec fn exact(self) -> bool {
        self.blocks().exact()
    }

    /// Instance `i`: its block, read as `channels` channels of `frames`
    /// frames.
    pub open spec fn instance(self, i: int) -> Planar<T> {
        Planar { raw: self.blocks().channel(i), channels: self.channels, frames: self.frames }
    }

    /// The region with the block of instance `i` replaced by `block`.
    pub open spec fn with_instance(self, i: int, block: Seq<T>) -> Stacked<T> {
        self.with_raw(self.blocks().with_window(i, 0, self.instance_len() as int, block).raw)
    }

    /// The region with the block of every instance replaced by the block of
    /// the same index.
    pub open spec fn with_instances(self, blocks: Seq<Seq<T>>) -> Stacked<T> {
        self.with_raw(self.blocks().with_windows(0, self.instance_len() as int, blocks).raw)
    }

    /// `after` is this region with another number of instances: the instances
    /// have the same layout, and those that both regions have hold the same
    /// samples. With the same number of instances the two are the same.
    pub open spec fn resized(self, instances: nat, after: Stacked<T>) -> bool {
        &&& after.channels == self.channels
        &&& after.frames == self.frames
        &&& self.blocks().resized(instances, after.blocks())
    }

    /// In a region that holds every instance, each instance holds its
    /// channels and nothing else.
    pub proof fn lemma_instance(self, i: int)
        requires
            self.blocks().fits(),
            0 <= i < self.instances,
        ensures
            self.instance(i).exact(),
            self.instance(i).channels == self.channels,
            self.instance(i).frames == self.frames,
            self.instance(i).raw.len() == self.instance_len(),
    {
        self.blocks().lemma_window(i, 0, self.instance_len() as int);
    }

    /// Channel `c` of instance `i` is the `frames` samples of the region that
    /// begin at `i * instance_len + c * frames`.
    pub proof fn lemma_instance_channel(self, i: int, c: int)
        requires
            self.blocks().fits(),
            0 <= i < self.instances,
            0 <= c < self.channels,
        ensures
            self.instance(i).channel(c) == self.raw.subrange(
                i * self.instance_len() + c * self.frames,
                i * self.instance_len() + c * self.frames + self.frames,
            ),
            0 <= i * self.instance_len() + c * self.frames,
            i * self.instance_len() + c * self.frames + self.frames <= self.raw.len(),
    {
        let len = self.instance_len() as int;
        self.blocks().lemma_window(i, 0, len);
        self.instance(i).lemma_window(c, 0, self.frames as int);
    }

    /// Rewriting one instance with a block of its length keeps the length of
    /// the region; the instance then reads as the block, and every other
    /// instance reads as before.
    pub proof fn lemma_with_instance(self, i: int, block: Seq<T>)
        requires
            self.blocks().fits(),
            0 <= i < self.instances,
            block.len() == self.instance_len(),
        ensures
            self.with_instance(i, block).raw.len() == self.raw.len(),
            self.with_instance(i, block).instance(i).raw == block,
            forall|j: int|
                0 <= j < self.instances && j != i ==> #[trigger] self.with_instance(
                    i,
                    block,
                ).instance(j) == self.instance(j),
    {
        let len = self.instance_len() as int;
        self.blocks().lemma_with_window(i, 0, len, block);
    }

    /// Rewriting every instance with a block of its length keeps the length
    /// of the region; each instance then reads as its block.
    pub proof fn lemma_with_instances(self, blocks: Seq<Seq<T>>)
        requires
            self.blocks().fits(),
            self.blocks().parts_fit(self.instance_len() as int, blocks),
        ensures
            self.with_instances(blocks).raw.len() == self.raw.len(),
            forall|i: int|
                0 <= i < self.instances ==> #[trigger] self.with_instances(blocks).instance(i).raw
                    == blocks[i],
    {
        let len = self.instance_len() as int;
        self.blocks().lemma_with_windows(0, len, blocks);
    }
}

impl<T: Default> Stacked<T> {
    /// The instances that `after` has and this region has not hold default
    /// values.
    pub open spec fn grown_default(self, after: Stacked<T>) -> bool {
        self.blocks().grown_default(after.blocks())
    }
}

} // verus!
