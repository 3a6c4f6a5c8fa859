//! Slicing a flat region into channels.
//!
//! These are the functions that every buffer is built from. They take the
//! region as a plain slice together with its layout, and say which samples
//! they hand out. The functions that hand out several mutable slices cut the
//! region once, front to back, so that no two of the slices share a sample.
//!
//! A mutable slice cannot change its length, but Verus does not know it.
//! Where a contract speaks of the region after mutable slices have been
//! written through, it therefore states the region as it is rebuilt from the
//! final values of those slices, whatever their lengths; the proof functions
//! of [`crate::planar`] say how that region reads where the lengths are kept.

use vstd::prelude::*;
use crate::planar::{all_default, clamped_len, clamped_span, is_default, Planar};
use core::ops::Range;

verus! {

/// The region `raw` read as `channels` channels of `frames` frames.
pub open spec fn layout<T>(raw: Seq<T>, channels: usize, frames: usize) -> Planar<T> {
    Planar::of(raw, channels as nat, frames as nat)
}

/// Clamps a requested frame count to the frames that a channel holds.
pub fn clamp_length(requested: usize, frames: usize) -> (len: usize)
    ensures
        len == clamped_len(requested as int, frames as int),
        len <= frames,
{
    if requested < frames {
        requested
    } else {
        frames
    }
}

/// Clamps a frame range to the frames that a channel holds. Returns the first
/// frame and the number of frames of the clamped range.
pub fn clamp_range(range: Range<usize>, frames: usize) -> (window: (usize, usize))
    ensures
        window.0 == clamped_len(range.start as int, frames as int),
        window.1 == clamped_span(range.start as int, range.end as int, frames as int),
        window.0 + window.1 <= frames,
{
    let first = clamp_length(range.start, frames);
    let last = clamp_length(range.end, frames);
    if first <= last {
        (first, last - first)
    } else {
        (first, 0)
    }
}

/// The table of channel starts for `channels` channels of `frames` frames.
pub fn start_table(channels: usize, frames: usize) -> (starts: Vec<usize>)
    requires
        channels * frames <= usize::MAX,
    ensures
        starts@.len() == channels,
        forall|c: int| 0 <= c < channels ==> #[trigger] starts@[c] == c * frames,
{
    let mut starts: Vec<usize> = Vec::with_capacity(channels);
    let mut c: usize = 0;
    while c < channels
        invariant
            c <= channels,
            channels * frames <= usize::MAX,
            starts@.len() == c,
            forall|i: int| 0 <= i < c ==> #[trigger] starts@[i] == i * frames,
        decreases channels - c,
    {
        proof {
            assert(c * frames <= channels * frames) by (nonlinear_arith)
                requires
                    c < channels,
            ;
        }
        starts.push(c * frames);
        c = c + 1;
    }
    starts
}

/// The table of channel starts for `N` channels of `frames` frames, as an
/// array.
pub fn start_array<const N: usize>(frames: usize) -> (starts: [usize; N])
    requires
        N * frames <= usize::MAX,
    ensures
        forall|c: int| 0 <= c < N ==> #[trigger] starts@[c] == c * frames,
{
    core::array::from_fn(
        |c: usize| -> (start: usize)
            requires
                c < N,
            ensures
                start == c * frames
            {
                proof {
                    assert(c * frames <= N * frames) by (nonlinear_arith)
                        requires
                            c < N,
                    ;
                }
                c * frames
            },
    )
}

/// A new region of `len` samples, each the default value.
pub fn default_region<T: Copy + Default>(len: usize) -> (out: Vec<T>)
    ensures
        out@.len() == len,
        all_default(out@),
{
    let value = T::default();
    let mut out: Vec<T> = Vec::with_capacity(len);
    let mut i: usize = 0;
    while i < len
        invariant
            i <= len,
            out@.len() == i,
            is_default(value),
            forall|j: int| 0 <= j < i ==> out@[j] == value,
        decreases len - i,
    {
        out.push(value);
        i = i + 1;
    }
    out
}

/// Shortens or lengthens a region to `len` samples. The samples that stay keep
/// their values; the samples that are added hold the default value.
pub fn resize_default<T: Copy + Default>(data: &mut Vec<T>, len: usize)
    ensures
        final(data)@.len() == len,
        len <= old(data)@.len() ==> final(data)@ == old(data)@.subrange(0, len as int),
        len >= old(data)@.len() ==> final(data)@.subrange(0, old(data)@.len() as int) == old(data)@,
        len >= old(data)@.len() ==> all_default(
            final(data)@.subrange(old(data)@.len() as int, len as int),
        ),
{
    if len <= data.len() {
        data.truncate(len);
    } else {
        let value = T::default();
        data.reserve(len - data.len());
        while data.len() < len
            invariant
                old(data)@.len() <= data@.len() <= len,
                is_default(value),
                data@.subrange(0, old(data)@.len() as int) == old(data)@,
                forall|j: int| old(data)@.len() <= j < data@.len() ==> data@[j] == value,
            decreases len - data@.len(),
        {
            data.push(value);
        }
    }
}

/// Overwrites the samples `[lo, hi)` with the default value. The rest of the
/// region stays as it is.
pub fn fill_default<T: Copy + Default>(data: &mut [T], lo: usize, hi: usize)
    requires
        lo <= hi <= old(data)@.len(),
    ensures
        final(data)@.len() == old(data)@.len(),
        all_default(final(data)@.subrange(lo as int, hi as int)),
        final(data)@.subrange(0, lo as int) == old(data)@.subrange(0, lo as int),
        final(data)@.subrange(hi as int, old(data)@.len() as int) == old(data)@.subrange(
            hi as int,
            old(data)@.len() as int,
        ),
{
    let value = T::default();
    let mut i: usize = lo;
    while i < hi
        invariant
            lo <= i <= hi <= data@.len(),
            data@.len() == old(data)@.len(),
            is_default(value),
            forall|j: int| lo <= j < i ==> data@[j] == value,
            forall|j: int| 0 <= j < lo || i <= j < data@.len() ==> data@[j] == old(data)@[j],
        decreases hi - i,
    {
        data[i] = value;
        i = i + 1;
    }
}

/// The `len` samples that begin at index `lo`.
pub fn span<'a, T>(data: &'a [T], lo: usize, len: usize) -> (out: &'a [T])
    requires
        lo + len <= data@.len(),
    ensures
        out@ == data@.subrange(lo as int, lo + len),
        out@.len() == len,
{
    proof {
        assert(data@.len() == data.len());
    }
    vstd::slice::slice_subrange(data, lo, lo + len)
}

/// The `len` samples that begin at index `lo`, for writing. The rest of the
/// region stays as it is.
pub fn span_mut<'a, T>(data: &'a mut [T], lo: usize, len: usize) -> (out: &'a mut [T])
    requires
        lo + len <= old(data)@.len(),
    ensures
        out@ == old(data)@.subrange(lo as int, lo + len),
        out@.len() == len,
        final(data)@ == old(data)@.subrange(0, lo as int) + final(out)@ + old(data)@.subrange(
            lo + len,
            old(data)@.len() as int,
        ),
{
    let (_before, rest) = data.split_at_mut(lo);
    let (out, _after) = rest.split_at_mut(len);
    out
}

/// The window `[first, first + len)` of channel `index`.
pub fn channel_window<'a, T>(
    data: &'a [T],
    frames: usize,
    index: usize,
    first: usize,
    len: usize,
) -> (out: &'a [T])
    requires
        first + len <= frames,
        (index + 1) * frames <= data@.len(),
    ensures
        out@ == Planar::of(data@, (index + 1) as nat, frames as nat).window(
            index as int,
            first as int,
            len as int,
        ),
        out@.len() == len,
{
    proof {
        assert((index + 1) * frames == index * frames + frames && 0 <= index * frames)
            by (nonlinear_arith);
        assert(data@.len() == data.len());
    }
    span(data, index * frames + first, len)
}

/// The window `[first, first + len)` of channel `index`, for writing. The
/// rest of the region stays as it is.
pub fn channel_window_mut<'a, T>(
    data: &'a mut [T],
    frames: usize,
    index: usize,
    first: usize,
    len: usize,
) -> (out: &'a mut [T])
    requires
        first + len <= frames,
        (index + 1) * frames <= old(data)@.len(),
    ensures
        out@ == Planar::of(old(data)@, (index + 1) as nat, frames as nat).window(
            index as int,
            first as int,
            len as int,
        ),
        out@.len() == len,
        final(data)@ == Planar::of(old(data)@, (index + 1) as nat, frames as nat).with_window(
            index as int,
            first as int,
            len as int,
            final(out)@,
        ).raw,
{
    proof {
        assert((index + 1) * frames == index * frames + frames && 0 <= index * frames)
            by (nonlinear_arith);
        assert(data@.len() == data.len());
    }
    span_mut(data, index * frames + first, len)
}

/// One window per channel: the frames `[first, first + len)` of each of the
/// first `channels` channels, in channel order.
pub fn windows<'a, T>(
    data: &'a [T],
    channels: usize,
    frames: usize,
    first: usize,
    len: usize,
) -> (out: Vec<&'a [T]>)
    requires
        first + len <= frames,
        channels * frames <= data@.len(),
    ensures
        out@.len() == channels,
        forall|c: int|
            #![trigger out@[c]]
            0 <= c < channels ==> ({
                &&& out@[c]@ == layout(data@, channels, frames).window(c, first as int, len as int)
                &&& out@[c]@.len() == len
            }),
{
    let mut out: Vec<&'a [T]> = Vec::with_capacity(channels);
    let mut c: usize = 0;
    while c < channels
        invariant
            c <= channels,
            first + len <= frames,
            channels * frames <= data@.len(),
            out@.len() == c,
            forall|i: int|
                #![trigger out@[i]]
                0 <= i < c ==> ({
                    &&& out@[i]@ == layout(data@, channels, frames).window(i, first as int, len as int)
                    &&& out@[i]@.len() == len
                }),
        decreases channels - c,
    {
        proof {
            assert((c + 1) * frames <= channels * frames) by (nonlinear_arith)
                requires
                    c < channels,
            ;
        }
        let window = channel_window(data, frames, c, first, len);
        out.push(window);
        c = c + 1;
    }
    out
}

/// One window per channel, where the start of each channel is read from
/// the table `starts`.
pub fn windows_at<'a, T>(
    data: &'a [T],
    starts: &[usize],
    first: usize,
    len: usize,
) -> (out: Vec<&'a [T]>)
    requires
        forall|c: int|
            0 <= c < starts@.len() ==> #[trigger] starts@[c] + first + len <= data@.len(),
    ensures
        out@.len() == starts@.len(),
        forall|c: int|
            #![trigger out@[c]]
            0 <= c < starts@.len() ==> ({
                &&& out@[c]@ == data@.subrange(starts@[c] + first, starts@[c] + first + len)
                &&& out@[c]@.len() == len
            }),
{
    proof {
        assert(data@.len() == data.len());
    }
    let mut out: Vec<&'a [T]> = Vec::with_capacity(starts.len());
    let mut c: usize = 0;
    while c < starts.len()
        invariant
            c <= starts@.len(),
            starts@.len() == starts.len(),
            data@.len() <= usize::MAX,
            forall|i: int|
                0 <= i < starts@.len() ==> #[trigger] starts@[i] + first + len <= data@.len(),
            out@.len() == c,
            forall|i: int|
                #![trigger out@[i]]
                0 <= i < c ==> ({
                    &&& out@[i]@ == data@.subrange(starts@[i] + first, starts@[i] + first + len)
                    &&& out@[i]@.len() == len
                }),
        decreases starts@.len() - c,
    {
        let window = span(data, starts[c] + first, len);
        out.push(window);
        c = c + 1;
    }
    out
}

/// One window per channel, as an array: the frames `[first, first + len)` of
/// each of `N` channels, in channel order.
pub fn window_array<'a, T, const N: usize>(
    data: &'a [T],
    frames: usize,
    first: usize,
    len: usize,
) -> (out: [&'a [T]; N])
    requires
        first + len <= frames,
        N * frames <= data@.len(),
    ensures
        forall|c: int|
            #![trigger out@[c]]
            0 <= c < N ==> ({
                &&& out@[c]@ == layout(data@, N, frames).window(c, first as int, len as int)
                &&& out@[c]@.len() == len
            }),
{
    core::array::from_fn(
        |c: usize| -> (window: &'a [T])
            requires
                c < N,
            ensures
                window@ == layout(data@, N, frames).window(c as int, first as int, len as int),
                window@.len() == len
            {
                proof {
                    assert((c + 1) * frames <= N * frames) by (nonlinear_arith)
                        requires
                            c < N,
                    ;
                }
                channel_window(data, frames, c, first, len)
            },
    )
}

/// One window per channel, as an array, where the start of each channel is
/// read from the table `starts`.
pub fn window_array_at<'a, T, const N: usize>(
    data: &'a [T],
    starts: &[usize; N],
    first: usize,
    len: usize,
) -> (out: [&'a [T]; N])
    requires
        forall|c: int| 0 <= c < N ==> #[trigger] starts@[c] + first + len <= data@.len(),
    ensures
        forall|c: int|
            #![trigger out@[c]]
            0 <= c < N ==> ({
                &&& out@[c]@ == data@.subrange(starts@[c] + first, starts@[c] + first + len)
                &&& out@[c]@.len() == len
            }),
{
    proof {
        assert(data@.len() == data.len());
    }
    core::array::from_fn(
        |c: usize| -> (window: &'a [T])
            requires
                c < N,
            ensures
                window@ == data@.subrange(starts@[c as int] + first, starts@[c as int] + first + len),
                window@.len() == len
            {
                span(data, starts[c] + first, len)
            },
    )
}

/// One window per channel, for writing: the frames `[first, first + len)` of
/// each of the first `channels` channels, in channel order. The region is cut
/// once, front to back, so no two windows share a sample; what lies between
/// the windows stays as it is.
pub fn windows_mut<'a, T>(
    data: &'a mut [T],
    channels: usize,
    frames: usize,
    first: usize,
    len: usize,
) -> (out: Vec<&'a mut [T]>)
    requires
        first + len <= frames,
        channels * frames <= old(data)@.len(),
    ensures
        out@.len() == channels,
        forall|c: int|
            #![trigger out@[c]]
            0 <= c < channels ==> ({
                &&& out@[c]@ == layout(old(data)@, channels, frames).window(c, first as int, len as int)
                &&& out@[c]@.len() == len
            }),
        final(data)@ == layout(old(data)@, channels, frames).with_windows(
            first as int,
            len as int,
            out@.map_values(|s: &mut [T]| final(s)@),
        ).raw,
{
    let ghost p = layout(data@, channels, frames);
    let ghost total = data@.len();
    proof {
        assert(data@.len() == data.len());
    }
    let mut out: Vec<&'a mut [T]> = Vec::with_capacity(channels);
    let mut rest: &'a mut [T] = &mut *data;
    let mut c: usize = 0;
    while c < channels
        invariant
            c <= channels,
            first + len <= frames,
            channels * frames <= total,
            total <= usize::MAX,
            p.raw.len() == total,
            p.channels == channels,
            p.frames == frames,
            out@.len() == c,
            rest@ == p.raw.subrange(c * frames, total as int),
            forall|i: int|
                #![trigger out@[i]]
                0 <= i < c ==> ({
                    &&& out@[i]@ == p.window(i, first as int, len as int)
                    &&& out@[i]@.len() == len
                }),
            after_borrow(data)@ == p.channels_with(
                first as int,
                len as int,
                out@.map_values(|s: &mut [T]| final(s)@),
                c as nat,
            ) + final(rest)@,
        decreases channels - c,
    {
        proof {
            assert((c + 1) * frames <= channels * frames && (c + 1) * frames == c * frames + frames
                && 0 <= c * frames) by (nonlinear_arith)
                requires
                    c < channels,
            ;
        }
        let ghost before = out@.map_values(|s: &mut [T]| final(s)@);
        let (channel, tail) = rest.split_at_mut(frames);
        let (_head, body) = channel.split_at_mut(first);
        let (window, _foot) = body.split_at_mut(len);
        out.push(window);
        rest = tail;
        proof {
            let after = out@.map_values(|s: &mut [T]| final(s)@);
            p.lemma_channels_with_reads_prefix(first as int, len as int, before, after, c as nat);
        }
        c = c + 1;
    }
    out
}

/// One window per channel, for writing, as an array: the frames
/// `[first, first + len)` of each of `N` channels, in channel order. The
/// region is cut once, front to back, so no two windows share a sample; what
/// lies between the windows stays as it is. Nothing is allocated.
pub fn window_array_mut<'a, T, const N: usize>(
    data: &'a mut [T],
    frames: usize,
    first: usize,
    len: usize,
) -> (out: [&'a mut [T]; N])
    requires
        first + len <= frames,
        N * frames <= old(data)@.len(),
    ensures
        forall|c: int|
            #![trigger out@[c]]
            0 <= c < N ==> ({
                &&& out@[c]@ == layout(old(data)@, N, frames).window(c, first as int, len as int)
                &&& out@[c]@.len() == len
            }),
        final(data)@ == layout(old(data)@, N, frames).with_windows(
            first as int,
            len as int,
            out@.map_values(|s: &mut [T]| final(s)@),
        ).raw,
{
    let ghost p = layout(data@, N, frames);
    let ghost total = data@.len();
    proof {
        assert(data@.len() == data.len());
    }
    let mut out: [&'a mut [T]; N] = core::array::from_fn(
        |_c: usize| -> (nothing: &'a mut [T])
            {
                let nothing: &'a mut [T] = &mut [];
                nothing
            },
    );
    let mut rest: &'a mut [T] = &mut *data;
    let mut c: usize = 0;
    while c < N
        invariant
            c <= N,
            first + len <= frames,
            N * frames <= total,
            total <= usize::MAX,
            p.raw.len() == total,
            p.channels == N,
            p.frames == frames,
            rest@ == p.raw.subrange(c * frames, total as int),
            forall|i: int|
                #![trigger out@[i]]
                0 <= i < c ==> ({
                    &&& out@[i]@ == p.window(i, first as int, len as int)
                    &&& out@[i]@.len() == len
                }),
            after_borrow(data)@ == p.channels_with(
                first as int,
                len as int,
                out@.map_values(|s: &mut [T]| final(s)@),
                c as nat,
            ) + final(rest)@,
        decreases N - c,
    {
        proof {
            assert((c + 1) * frames <= N * frames && (c + 1) * frames == c * frames + frames && 0 <= c
                * frames) by (nonlinear_arith)
                requires
                    c < N,
            ;
        }
        let ghost before = out@.map_values(|s: &mut [T]| final(s)@);
        let (channel, tail) = rest.split_at_mut(frames);
        let (_head, body) = channel.split_at_mut(first);
        let (window, _foot) = body.split_at_mut(len);
        out[c] = window;
        rest = tail;
        proof {
            let after = out@.map_values(|s: &mut [T]| final(s)@);
            p.lemma_channels_with_reads_prefix(first as int, len as int, before, after, c as nat);
        }
        c = c + 1;
    }
    out
}

/// Overwrites the first `len` frames of each of the first `channels` channels
/// with the default value. The later frames of each channel, and what follows
/// the last channel, stay as they are.
pub fn clear_leading<T: Copy + Default>(data: &mut [T], channels: usize, frames: usize, len: usize)
    requires
        len <= frames,
        channels * frames <= old(data)@.len(),
    ensures
        layout(old(data)@, channels, frames).cleared(
            len as int,
            layout(final(data)@, channels, frames),
        ),
{
    let ghost p = layout(data@, channels, frames);
    let ghost total = data@.len();
    proof {
        assert(data@.len() == data.len());
    }
    let mut c: usize = 0;
    while c < channels
        invariant
            c <= channels,
            len <= frames,
            channels * frames <= total,
            total <= usize::MAX,
            data@.len() == total,
            p == layout(old(data)@, channels, frames),
            total == p.raw.len(),
            forall|i: int|
                0 <= i < c ==> all_default(
                    #[trigger] layout(data@, channels, frames).window(i, 0, len as int),
                ),
            forall|i: int|
                0 <= i < c ==> #[trigger] layout(data@, channels, frames).window(
                    i,
                    len as int,
                    frames - len,
                ) == p.window(i, len as int, frames - len),
            data@.subrange(c * frames, total as int) == p.raw.subrange(c * frames, total as int),
        decreases channels - c,
    {
        proof {
            assert((c + 1) * frames <= channels * frames && (c + 1) * frames == c * frames + frames
                && 0 <= c * frames) by (nonlinear_arith)
                requires
                    c < channels,
            ;
        }
        let ghost before = data@;
        let lo = c * frames;
        fill_default(data, lo, lo + len);
        proof {
            let q = layout(data@, channels, frames);
            let b = layout(before, channels, frames);
            lemma_same_samples(data@, before, 0, lo as int);
            lemma_same_samples(data@, before, lo + len, total as int);
            lemma_same_samples(before, p.raw, lo as int, total as int);
            assert forall|i: int| 0 <= i < c implies #[trigger] q.window(i, 0, len as int)
                == b.window(i, 0, len as int) by {
                assert((i + 1) * frames <= c * frames && (i + 1) * frames == i * frames + frames
                    && 0 <= i * frames) by (nonlinear_arith)
                    requires
                        0 <= i < c,
                ;
            }
            assert forall|i: int| 0 <= i < c implies #[trigger] q.window(
                i,
                len as int,
                frames - len,
            ) == p.window(i, len as int, frames - len) by {
                assert((i + 1) * frames <= c * frames && (i + 1) * frames == i * frames + frames
                    && 0 <= i * frames) by (nonlinear_arith)
                    requires
                        0 <= i < c,
                ;
                assert(q.window(i, len as int, frames - len) =~= b.window(
                    i,
                    len as int,
                    frames - len,
                ));
            }
        }
        c = c + 1;
    }
    proof {
        let q = layout(data@, channels, frames);
        assert forall|i: int, first: int, n: int|
            0 <= i < channels && 0 <= first && 0 <= n && first + n <= len implies all_default(
            #[trigger] q.window(i, first, n),
        ) by {
            p.lemma_window(i, 0, len as int);
            let front = q.window(i, 0, len as int);
            assert forall|k: int| 0 <= k < q.window(i, first, n).len() implies is_default(
                #[trigger] q.window(i, first, n)[k],
            ) by {
                assert(q.window(i, first, n)[k] == front[first + k]);
            }
        }
        assert forall|i: int, first: int, n: int|
            0 <= i < channels && len <= first && 0 <= n && first + n <= frames implies #[trigger] q.window(
            i,
            first,
            n,
        ) == p.window(i, first, n) by {
            p.lemma_window(i, len as int, frames - len);
            let back = q.window(i, len as int, frames - len);
            assert(q.window(i, first, n) =~= back.subrange(first - len, first - len + n));
        }
    }
}

/// Two sequences that agree on the range `[lo, hi)` hold the same sample at
/// each index of it.
proof fn lemma_same_samples<T>(a: Seq<T>, b: Seq<T>, lo: int, hi: int)
    requires
        0 <= lo <= hi <= a.len(),
        hi <= b.len(),
        a.subrange(lo, hi) == b.subrange(lo, hi),
    ensures
        forall|j: int| lo <= j < hi ==> a[j] == b[j],
{
    assert forall|j: int| lo <= j < hi implies a[j] == b[j] by {
        assert(a.subrange(lo, hi)[j - lo] == a[j]);
    }
}

} // verus!
