//! The mathematical model shared by every buffer: a flat sequence of samples
//! read as consecutive channels of equal length.
//!
//! The contracts of the buffers are stated over [`Planar`]. The proof
//! functions of this module state what holds of every such region: that no
//! sample belongs to two channels, how long a window is, and how the region
//! reads once windows of it have been rewritten.

use vstd::prelude::*;

verus! {

/// A flat region read as `channels` consecutive runs of `frames` samples.
///
/// Channel `c` is the run `raw[c * frames .. c * frames + frames]`. The region
/// may be longer than `channels * frames`; what follows the last channel
/// belongs to no channel.
pub struct Planar<T> {
    pub raw: Seq<T>,
    pub channels: nat,
    pub frames: nat,
}

/// The number of frames handed out when `requested` frames are asked of a
/// channel that holds `frames`: the smaller of the two.
pub open spec fn clamped_len(requested: int, frames: int) -> int {
    if requested < frames {
        requested
    } else {
        frames
    }
}

/// The number of frames handed out for the frame range `start..end` of a
/// channel that holds `frames`: both ends are clamped to `frames`, and a range
/// that ends before it starts is empty.
pub open spec fn clamped_span(start: int, end: int, frames: int) -> int {
    let lo = clamped_len(start, frames);
    let hi = clamped_len(end, frames);
    if lo <= hi {
        hi - lo
    } else {
        0
    }
}

/// `value` is what `T::default()` returns.
pub open spec fn is_default<T: Default>(value: T) -> bool {
    call_ensures(T::default, (), value)
}

/// Every sample of `samples` is a default value.
pub open spec fn all_default<T: Default>(samples: Seq<T>) -> bool {
    forall|i: int| 0 <= i < samples.len() ==> is_default(#[trigger] samples[i])
}

/// The clamped frame count is the smaller of the request and the frames that
/// the channel holds.
pub proof fn lemma_clamped_len(requested: int, frames: int)
    ensures
        clamped_len(requested, frames) == vstd::math::min(requested, frames),
        clamped_len(requested, frames) <= frames,
        requested <= frames ==> clamped_len(requested, frames) == requested,
{
}

/// The clamped range `start..end` lies within the channel. Where the range
/// does not end before it starts, it holds `min(end, frames) - min(start,
/// frames)` frames; a range that starts at or after the last frame is empty.
pub proof fn lemma_clamped_span(start: int, end: int, frames: int)
    requires
        0 <= start,
        0 <= end,
        0 <= frames,
    ensures
        0 <= clamped_span(start, end, frames),
        clamped_len(start, frames) + clamped_span(start, end, frames) <= frames,
        start <= end ==> clamped_span(start, end, frames) == vstd::math::min(end, frames)
            - vstd::math::min(start, frames),
        start >= frames ==> clamped_span(start, end, frames) == 0,
        start <= end <= frames ==> clamped_span(start, end, frames) == end - start,
{
}

impl<T> Planar<T> {
    /// The region `raw` read as `channels` channels of `frames` frames.
    pub open spec fn of(raw: Seq<T>, channels: nat, frames: nat) -> Planar<T> {
        Planar { raw, channels, frames }
    }

    /// The same channel layout over another region.
    pub open spec fn with_raw(self, raw: Seq<T>) -> Planar<T> {
        Planar { raw, channels: self.channels, frames: self.frames }
    }

    /// The region holds every channel in full.
    pub open spec fn fits(self) -> bool {
        self.channels * self.frames <= self.raw.len()
    }

    /// The region holds every channel in full and nothing else.
    pub open spec fn exact(self) -> bool {
        self.channels * self.frames == self.raw.len()
    }

    /// Index in `raw` of the first sample of channel `c`.
    pub open spec fn start(self, c: int) -> int {
        c * self.frames
    }

    /// Index in `raw` of frame `k` of channel `c`.
    pub open spec fn at(self, c: int, k: int) -> int {
        c * self.frames + k
    }

    /// The `len` samples of channel `c` that begin at frame `first`.
    pub open spec fn window(self, c: int, first: int, len: int) -> Seq<T> {
        self.raw.subrange(self.start(c) + first, self.start(c) + first + len)
    }

    /// All samples of channel `c`.
    pub open spec fn channel(self, c: int) -> Seq<T> {
        self.window(c, 0, self.frames as int)
    }

    /// What follows the last channel.
    pub open spec fn remainder(self) -> Seq<T> {
        self.raw.subrange(self.start(self.channels as int), self.raw.len() as int)
    }

    /// The number of frames handed out when `requested` frames are asked of
    /// a channel.
    pub open spec fn clamp(self, requested: int) -> int {
        clamped_len(requested, self.frames as int)
    }

    /// The number of frames handed out for the frame range `start..end` of a
    /// channel.
    pub open spec fn clamp_span(self, start: int, end: int) -> int {
        clamped_span(start, end, self.frames as int)
    }

    /// Channel `c` with its window `[first, first + len)` replaced by `part`.
    pub open spec fn channel_with(self, c: int, first: int, len: int, part: Seq<T>) -> Seq<T> {
        self.raw.subrange(self.start(c), self.start(c) + first) + part + self.raw.subrange(
            self.start(c) + first + len,
            self.start(c) + self.frames,
        )
    }

    /// The region with the window `[first, first + len)` of channel `c`
    /// replaced by `part`.
    pub open spec fn with_window(self, c: int, first: int, len: int, part: Seq<T>) -> Planar<T> {
        self.with_raw(
            self.raw.subrange(0, self.start(c) + first) + part + self.raw.subrange(
                self.start(c) + first + len,
                self.raw.len() as int,
            ),
        )
    }

    /// The first `n` channels, each with its window `[first, first + len)`
    /// replaced by the part of the same index.
    pub open spec fn channels_with(self, first: int, len: int, parts: Seq<Seq<T>>, n: nat) -> Seq<T>
        decreases n,
    {
        if n == 0 {
            Seq::empty()
        } else {
            self.channels_with(first, len, parts, (n - 1) as nat) + self.channel_with(
                n - 1,
                first,
                len,
                parts[n - 1],
            )
        }
    }

    /// The region with the window `[first, first + len)` of every channel
    /// replaced by the part of the same index.
    pub open spec fn with_windows(self, first: int, len: int, parts: Seq<Seq<T>>) -> Planar<T> {
        self.with_raw(self.channels_with(first, len, parts, self.channels) + self.remainder())
    }

    /// There is one part for every channel, and every part is `len` samples.
    pub open spec fn parts_fit(self, len: int, parts: Seq<Seq<T>>) -> bool {
        &&& parts.len() == self.channels
        &&& forall|c: int| 0 <= c < self.channels ==> (#[trigger] parts[c]).len() == len
    }

    /// `after` is this region with another number of channels: the channels
    /// have the same length, and those that both regions have hold the same
    /// samples. With the same number of channels the two are the same.
    pub open spec fn resized(self, channels: nat, after: Planar<T>) -> bool {
        &&& after.channels == channels
        &&& after.frames == self.frames
        &&& after.raw.len() == channels * self.frames
        &&& channels == self.channels ==> after == self
        &&& channels <= self.channels ==> after.raw == self.raw.subrange(0, after.raw.len() as int)
        &&& channels >= self.channels ==> after.raw.subrange(0, self.raw.len() as int) == self.raw
        &&& forall|c: int|
            0 <= c < channels && c < self.channels ==> #[trigger] after.channel(c) == self.channel(
                c,
            )
    }

    /// In a region that holds every channel, each channel lies within the
    /// region, and so does each of its windows, which is `len` samples long.
    pub proof fn lemma_window(self, c: int, first: int, len: int)
        requires
            self.fits(),
            0 <= c < self.channels,
            0 <= first,
            0 <= len,
            first + len <= self.frames,
        ensures
            0 <= self.start(c),
            self.start(c) + self.frames <= self.start(self.channels as int) <= self.raw.len(),
            self.window(c, first, len).len() == len,
            self.channel(c).len() == self.frames,
            forall|k: int|
                0 <= k < len ==> #[trigger] self.window(c, first, len)[k] == self.raw[self.at(
                    c,
                    first + k,
                )],
    {
        assert(c * self.frames + self.frames <= self.channels * self.frames && 0 <= c * self.frames)
            by (nonlinear_arith)
            requires
                0 <= c < self.channels,
        ;
    }

    /// No sample belongs to two channels: of two different channels, one ends
    /// before the other starts.
    pub proof fn lemma_channels_disjoint(self, a: int, b: int)
        requires
            0 <= a < b,
        ensures
            self.start(a) + self.frames <= self.start(b),
            forall|j: int, k: int|
                0 <= j < self.frames && 0 <= k < self.frames ==> self.at(a, j) != self.at(b, k),
    {
        assert(a * self.frames + self.frames <= b * self.frames) by (nonlinear_arith)
            requires
                0 <= a < b,
        ;
    }

    /// Two regions with channels of the same length that agree on their first
    /// `n * frames` samples have the same first `n` channels.
    pub proof fn lemma_shared_channels(self, other: Planar<T>, n: nat)
        requires
            self.frames == other.frames,
            n * self.frames <= self.raw.len(),
            n * self.frames <= other.raw.len(),
            self.raw.subrange(0, (n * self.frames) as int) == other.raw.subrange(
                0,
                (n * self.frames) as int,
            ),
        ensures
            forall|c: int| 0 <= c < n ==> #[trigger] self.channel(c) == other.channel(c),
    {
        let shared = (n * self.frames) as int;
        assert forall|c: int| 0 <= c < n implies #[trigger] self.channel(c) == other.channel(c) by {
            assert(c * self.frames + self.frames <= n * self.frames && 0 <= c * self.frames)
                by (nonlinear_arith)
                requires
                    0 <= c < n,
            ;
            assert(self.channel(c) =~= self.raw.subrange(0, shared).subrange(
                self.start(c),
                self.start(c) + self.frames,
            ));
        }
    }

    /// Rewriting a window of one channel with a part of the window's length
    /// keeps the length of the region; the window then reads as the part,
    /// every other channel reads as before, and so does what follows the last
    /// channel.
    pub proof fn lemma_with_window(self, c: int, first: int, len: int, part: Seq<T>)
        requires
            self.fits(),
            0 <= c < self.channels,
            0 <= first,
            0 <= len,
            first + len <= self.frames,
            part.len() == len,
        ensures
            self.with_window(c, first, len, part).raw.len() == self.raw.len(),
            self.with_window(c, first, len, part).fits(),
            self.with_window(c, first, len, part).window(c, first, len) == part,
            self.with_window(c, first, len, part).window(c, 0, first) == self.window(c, 0, first),
            self.with_window(c, first, len, part).window(
                c,
                first + len,
                self.frames - first - len,
            ) == self.window(c, first + len, self.frames - first - len),
            forall|d: int|
                0 <= d < self.channels && d != c ==> #[trigger] self.with_window(
                    c,
                    first,
                    len,
                    part,
                ).channel(d) == self.channel(d),
            self.with_window(c, first, len, part).remainder() == self.remainder(),
    {
        let q = self.with_window(c, first, len, part);
        self.lemma_window(c, first, len);
        assert forall|d: int| 0 <= d < self.channels && d != c implies #[trigger] q.channel(d)
            == self.channel(d) by {
            self.lemma_window(d, 0, self.frames as int);
            if d < c {
                self.lemma_channels_disjoint(d, c);
            } else {
                self.lemma_channels_disjoint(c, d);
            }
        }
    }

    /// `channels_with` reads only the first `n` parts.
    pub proof fn lemma_channels_with_reads_prefix(
        self,
        first: int,
        len: int,
        parts: Seq<Seq<T>>,
        more: Seq<Seq<T>>,
        n: nat,
    )
        requires
            n <= parts.len(),
            n <= more.len(),
            forall|c: int| 0 <= c < n ==> parts[c] == more[c],
        ensures
            self.channels_with(first, len, parts, n) == self.channels_with(first, len, more, n),
        decreases n,
    {
        if n > 0 {
            self.lemma_channels_with_reads_prefix(first, len, parts, more, (n - 1) as nat);
        }
    }

    /// With parts of the window's length, the first `n` rewritten channels are
    /// `n * frames` samples, and each of them reads as the channel it stands
    /// for, but for its window, which reads as its part.
    pub proof fn lemma_channels_with(self, first: int, len: int, parts: Seq<Seq<T>>, n: nat)
        requires
            0 <= first,
            0 <= len,
            first + len <= self.frames,
            n <= parts.len(),
            n * self.frames <= self.raw.len(),
            forall|c: int| 0 <= c < n ==> (#[trigger] parts[c]).len() == len,
        ensures
            self.channels_with(first, len, parts, n).len() == n * self.frames,
            forall|c: int, k: int|
                0 <= c < n && first <= k < first + len ==> self.channels_with(
                    first,
                    len,
                    parts,
                    n,
                )[#[trigger] self.at(c, k)] == parts[c][k - first],
            forall|c: int, k: int|
                0 <= c < n && (0 <= k < first || first + len <= k < self.frames)
                    ==> self.channels_with(first, len, parts, n)[#[trigger] self.at(c, k)]
                    == self.raw[self.at(c, k)],
        decreases n,
    {
        if n > 0 {
            let m = (n - 1) as nat;
            assert(m * self.frames + self.frames == n * self.frames && m * self.frames <= n
                * self.frames && 0 <= m * self.frames) by (nonlinear_arith)
                requires
                    m + 1 == n,
            ;
            self.lemma_channels_with(first, len, parts, m);
            let head = self.channels_with(first, len, parts, m);
            let last = self.channel_with(m as int, first, len, parts[m as int]);
            let all = self.channels_with(first, len, parts, n);
            assert forall|c: int, k: int| 0 <= c < n && 0 <= k < self.frames implies (c < m
                ==> all[#[trigger] self.at(c, k)] == head[self.at(c, k)]) && (c == m ==> all[self.at(
                c,
                k,
            )] == last[k]) && 0 <= self.at(c, k) < n * self.frames by {
                assert(c * self.frames + self.frames <= n * self.frames && 0 <= c * self.frames
                    && (c < m ==> c * self.frames + self.frames <= m * self.frames))
                    by (nonlinear_arith)
                    requires
                        0 <= c < n,
                        m + 1 == n,
                ;
            }
        } else {
            assert(n * self.frames == 0) by (nonlinear_arith)
                requires
                    n == 0,
            ;
        }
    }

    /// Rewriting the window `[first, first + len)` of every channel with parts
    /// of that length keeps the length of the region; each window then reads
    /// as its part, and the frames before and after the window, as well as
    /// what follows the last channel, read as before.
    pub proof fn lemma_with_windows(self, first: int, len: int, parts: Seq<Seq<T>>)
        requires
            self.fits(),
            0 <= first,
            0 <= len,
            first + len <= self.frames,
            self.parts_fit(len, parts),
        ensures
            self.with_windows(first, len, parts).raw.len() == self.raw.len(),
            self.with_windows(first, len, parts).fits(),
            forall|c: int|
                0 <= c < self.channels ==> #[trigger] self.with_windows(first, len, parts).window(
                    c,
                    first,
                    len,
                ) == parts[c],
            forall|c: int|
                0 <= c < self.channels ==> #[trigger] self.with_windows(first, len, parts).window(
                    c,
                    0,
                    first,
                ) == self.window(c, 0, first),
            forall|c: int|
                0 <= c < self.channels ==> #[trigger] self.with_windows(first, len, parts).window(
                    c,
                    first + len,
                    self.frames - first - len,
                ) == self.window(c, first + len, self.frames - first - len),
            self.with_windows(first, len, parts).remainder() == self.remainder(),
    {
        let q = self.with_windows(first, len, parts);
        let body = self.channels_with(first, len, parts, self.channels);
        let after = first + len;
        let rest = self.frames - first - len;
        self.lemma_channels_with(first, len, parts, self.channels);
        assert forall|c: int, k: int|
            0 <= c < self.channels && 0 <= k < self.frames implies 0 <= #[trigger] self.at(c, k)
            < body.len() && q.raw[self.at(c, k)] == (if first <= k < first + len {
            parts[c][k - first]
        } else {
            self.raw[self.at(c, k)]
        }) by {
            assert(c * self.frames + self.frames <= self.channels * self.frames && 0 <= c
                * self.frames) by (nonlinear_arith)
                requires
                    0 <= c < self.channels,
            ;
        }
        assert forall|c: int| 0 <= c < self.channels implies 0 <= #[trigger] self.start(c)
            && self.start(c) + self.frames <= self.raw.len() by {
            assert(c * self.frames + self.frames <= self.channels * self.frames && 0 <= c
                * self.frames) by (nonlinear_arith)
                requires
                    0 <= c < self.channels,
            ;
        }
        assert forall|c: int| 0 <= c < self.channels implies #[trigger] q.window(c, first, len)
            == parts[c] by {
            assert(0 <= self.start(c));
            assert forall|i: int| 0 <= i < len implies q.window(c, first, len)[i] == parts[c][i] by {
                assert(q.window(c, first, len)[i] == q.raw[self.at(c, first + i)]);
            }
        }
        assert forall|c: int| 0 <= c < self.channels implies #[trigger] q.window(c, 0, first)
            == self.window(c, 0, first) by {
            assert(0 <= self.start(c));
            assert forall|i: int| 0 <= i < first implies q.window(c, 0, first)[i] == self.window(
                c,
                0,
                first,
            )[i] by {
                assert(q.window(c, 0, first)[i] == q.raw[self.at(c, i)]);
            }
        }
        assert forall|c: int| 0 <= c < self.channels implies #[trigger] q.window(c, after, rest)
            == self.window(c, after, rest) by {
            assert(0 <= self.start(c));
            assert forall|i: int| 0 <= i < rest implies q.window(c, after, rest)[i] == self.window(
                c,
                after,
                rest,
            )[i] by {
                assert(q.window(c, after, rest)[i] == q.raw[self.at(c, after + i)]);
            }
        }
    }
}

impl<T: Default> Planar<T> {
    /// `after` is this region with the first `len` frames of every channel
    /// overwritten by default values: every window of those frames holds
    /// default values, and every window of the later frames, as well as what
    /// follows the last channel, reads as before.
    pub open spec fn cleared(self, len: int, after: Planar<T>) -> bool {
        &&& after.channels == self.channels
        &&& after.frames == self.frames
        &&& after.raw.len() == self.raw.len()
        &&& forall|c: int, first: int, n: int|
            0 <= c < self.channels && 0 <= first && 0 <= n && first + n <= len ==> all_default(
                #[trigger] after.window(c, first, n),
            )
        &&& forall|c: int, first: int, n: int|
            0 <= c < self.channels && len <= first && 0 <= n && first + n <= self.frames
                ==> #[trigger] after.window(c, first, n) == self.window(c, first, n)
        &&& after.remainder() == self.remainder()
    }

    /// The channels that `after` has and this region has not hold default
    /// values.
    pub open spec fn grown_default(self, after: Planar<T>) -> bool {
        forall|c: int|
            self.channels <= c < after.channels ==> all_default(#[trigger] after.channel(c))
    }
}

} // verus!
