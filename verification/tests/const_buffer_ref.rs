use audio_channel_buffer::{ChannelBufferRef, ChannelBufferRefMut};

#[test]
fn fixed_ref_new_divides_the_region() {
    let data = [1u32, 2, 3, 4, 5, 6, 7];
    let view = ChannelBufferRef::<u32, 2>::new(&data);
    assert_eq!(view.frames(), 3);
    assert_eq!(view.channels(), 2);
    assert_eq!(view.channel(0).unwrap(), &[1, 2, 3]);
    assert_eq!(view.channel(1).unwrap(), &[4, 5, 6]);
    assert!(view.channel(2).is_none());
    assert_eq!(view.raw(), &data);
}

#[test]
fn fixed_ref_new_on_a_short_region() {
    let data = [1u32, 2];
    let view = ChannelBufferRef::<u32, 3>::new(&data);
    assert_eq!(view.frames(), 0);
    assert_eq!(view.raw().len(), 2);
    assert!(view.channel(2).unwrap().is_empty());
    assert!(view.channel(3).is_none());
}

#[test]
fn fixed_ref_new_unchecked_takes_the_frames() {
    let data = [1u32, 2, 3, 4, 5, 6, 7, 8, 9];
    let view = ChannelBufferRef::<u32, 2>::new_unchecked(&data, 3);
    assert_eq!(view.frames(), 3);
    assert_eq!(view.channel_unchecked(1), &[4, 5, 6]);
    let [a, b] = view.as_slices();
    assert_eq!(a, &[1, 2, 3]);
    assert_eq!(b, &[4, 5, 6]);
}

#[test]
fn fixed_ref_empty_and_default() {
    let view = ChannelBufferRef::<f32, 5>::empty();
    assert_eq!(view.frames(), 0);
    assert_eq!(view.channels(), 5);
    assert!(view.raw().is_empty());
    assert!(view.channel(4).unwrap().is_empty());
    let view: ChannelBufferRef<f32, 5> = Default::default();
    assert!(view.raw().is_empty());
    let view = ChannelBufferRefMut::<f32, 5>::empty();
    assert_eq!(view.frames(), 0);
    assert!(view.raw().is_empty());
    let view: ChannelBufferRefMut<f32, 5> = Default::default();
    assert!(view.raw().is_empty());
}

#[test]
fn fixed_ref_is_copied() {
    let data = [1u32, 2, 3, 4];
    let view = ChannelBufferRef::<u32, 2>::new(&data);
    let moved = view;
    let clone = view.clone();
    assert_eq!(moved.raw(), view.raw());
    assert_eq!(clone.frames(), 2);
}

#[test]
fn fixed_ref_slices_are_clamped() {
    let data = [0u32, 1, 2, 3, 10, 11, 12, 13];
    let view = ChannelBufferRef::<u32, 2>::new(&data);
    let [a, b] = view.as_slices_with_length(3);
    assert_eq!(a, &[0, 1, 2]);
    assert_eq!(b, &[10, 11, 12]);
    let [a, b] = view.as_slices_with_length(30);
    assert_eq!(a, &[0, 1, 2, 3]);
    assert_eq!(b, &[10, 11, 12, 13]);
    let [a, b] = view.as_slices_with_range(1..3);
    assert_eq!(a, &[1, 2]);
    assert_eq!(b, &[11, 12]);
    let [a, b] = view.as_slices_with_range(2..30);
    assert_eq!(a, &[2, 3]);
    assert_eq!(b, &[12, 13]);
    let [a, b] = view.as_slices_with_range(4..30);
    assert!(a.is_empty() && b.is_empty());
    let [a, b] = view.as_slices_with_range(3..2);
    assert!(a.is_empty() && b.is_empty());
}

#[test]
fn fixed_ref_mut_all_channels_are_disjoint() {
    let mut data = [0u32; 9];
    {
        let mut view = ChannelBufferRefMut::<u32, 2>::new(&mut data);
        assert_eq!(view.frames(), 4);
        let [left, right] = view.as_mut_slices();
        left.copy_from_slice(&[1, 2, 3, 4]);
        right.copy_from_slice(&[5, 6, 7, 8]);
    }
    assert_eq!(data, [1, 2, 3, 4, 5, 6, 7, 8, 0]);
}

#[test]
fn fixed_ref_mut_reads_what_it_wrote() {
    let mut data = [0u32; 6];
    let mut view = ChannelBufferRefMut::<u32, 3>::new(&mut data);
    view.channel_mut(1).unwrap().copy_from_slice(&[3, 4]);
    view.channel_unchecked_mut(2)[1] = 9;
    assert!(view.channel_mut(3).is_none());
    assert_eq!(view.channel(1).unwrap(), &[3, 4]);
    assert_eq!(view.channel_unchecked(2), &[0, 9]);
    assert!(view.channel(3).is_none());
    let [a, b, c] = view.as_slices();
    assert_eq!((a, b, c), (&[0u32, 0][..], &[3u32, 4][..], &[0u32, 9][..]));
    view.raw_mut()[0] = 1;
    assert_eq!(view.raw(), &[1, 0, 3, 4, 0, 9]);
}

#[test]
fn fixed_ref_mut_windows() {
    let mut data = [0u32, 1, 2, 3, 10, 11, 12, 13];
    let mut view = ChannelBufferRefMut::<u32, 2>::new_unchecked(&mut data, 4);
    {
        let [a, b] = view.as_mut_slices_with_length(1);
        a[0] = 7;
        b[0] = 8;
    }
    {
        let [a, b] = view.as_mut_slices_with_range(2..8);
        assert_eq!(a, &[2, 3]);
        a[1] = 5;
        b[0] = 6;
    }
    let [a, b] = view.as_slices_with_length(9);
    assert_eq!(a, &[7, 1, 2, 5]);
    assert_eq!(b, &[8, 11, 6, 13]);
    let [a, b] = view.as_slices_with_range(1..2);
    assert_eq!((a, b), (&[1u32][..], &[11u32][..]));
    assert_eq!(data, [7, 1, 2, 5, 8, 11, 6, 13]);
}

#[test]
fn fixed_ref_mut_clear_and_clear_frames() {
    let mut data = [1u32, 2, 3, 4, 5, 6, 7, 8, 9];
    {
        let mut view = ChannelBufferRefMut::<u32, 2>::new(&mut data);
        view.clear_frames(2);
        assert_eq!(view.raw(), &[0, 0, 3, 4, 0, 0, 7, 8, 9]);
        view.clear_frames(100);
        assert_eq!(view.raw(), &[0, 0, 0, 0, 0, 0, 0, 0, 9]);
    }
    data[1] = 4;
    let mut view = ChannelBufferRefMut::<u32, 2>::new(&mut data);
    view.clear();
    assert_eq!(view.raw(), &[0; 9]);
}

#[test]
fn fixed_ref_index_reads_a_channel() {
    let mut data = [1u32, 2, 3, 4];
    {
        let view = ChannelBufferRef::<u32, 2>::new(&data);
        assert_eq!(&view[1], &[3, 4]);
    }
    let view = ChannelBufferRefMut::<u32, 2>::new(&mut data);
    assert_eq!(&view[0], &[1, 2]);
}

#[test]
fn fixed_ref_mut_gives_the_region_back() {
    let mut data = [1u32, 2, 3, 4];
    {
        let mut view = ChannelBufferRefMut::<u32, 2>::new(&mut data);
        view.channel_mut(0).unwrap()[0] = 9;
        let shared = view.into_ref();
        assert_eq!(shared.channel(0).unwrap(), &[9, 2]);
        assert_eq!(shared.frames(), 2);
    }
    {
        let view = ChannelBufferRefMut::<u32, 2>::new(&mut data);
        assert_eq!(view.into_raw(), &[9, 2, 3, 4]);
    }
    {
        let view = ChannelBufferRefMut::<u32, 2>::new(&mut data);
        let region = view.into_raw_mut();
        region[3] = 0;
    }
    assert_eq!(data, [9, 2, 3, 0]);
}
