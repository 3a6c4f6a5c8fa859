use audio_channel_buffer::ChannelBuffer;

fn seeded<const CHANNELS: usize>(frames: usize) -> ChannelBuffer<u32, CHANNELS> {
    let mut buffer = ChannelBuffer::<u32, CHANNELS>::new(frames);
    for (i, sample) in buffer.raw_mut().iter_mut().enumerate() {
        *sample = 100 + i as u32;
    }
    buffer
}

#[test]
fn owned_new_is_default_valued() {
    let buffer = ChannelBuffer::<f32, 3>::new(5);
    assert_eq!(buffer.channels(), 3);
    assert_eq!(buffer.frames(), 5);
    assert_eq!(buffer.raw().len(), 15);
    assert!(buffer.raw().iter().all(|s| *s == 0.0));
}

#[test]
fn owned_new_with_no_frames() {
    let buffer = ChannelBuffer::<u8, 4>::new(0);
    assert_eq!(buffer.frames(), 0);
    assert!(buffer.raw().is_empty());
    assert_eq!(buffer.channel(3).unwrap().len(), 0);
    assert!(buffer.channel(4).is_none());
}

#[test]
fn owned_empty_has_no_samples() {
    let buffer = ChannelBuffer::<i16, 2>::empty();
    assert_eq!(buffer.channels(), 2);
    assert_eq!(buffer.frames(), 0);
    assert!(buffer.raw().is_empty());
    let [a, b] = buffer.as_slices();
    assert!(a.is_empty() && b.is_empty());
}

#[test]
fn owned_default_is_empty() {
    let buffer: ChannelBuffer<i16, 2> = Default::default();
    assert_eq!(buffer.frames(), 0);
    assert!(buffer.raw().is_empty());
}

#[test]
fn owned_new_uninit_has_the_layout() {
    let mut buffer = ChannelBuffer::<u32, 2>::new_uninit(3);
    assert_eq!(buffer.frames(), 3);
    assert_eq!(buffer.raw().len(), 6);
    buffer.raw_mut().copy_from_slice(&[1, 2, 3, 4, 5, 6]);
    assert_eq!(buffer.channel(1).unwrap(), &[4, 5, 6]);
}

#[test]
fn owned_channel_has_frames_samples() {
    let buffer = seeded::<3>(4);
    for index in 0..3 {
        let channel = buffer.channel(index).unwrap();
        assert_eq!(channel.len(), 4);
        let start = 100 + 4 * index as u32;
        assert_eq!(channel, &[start, start + 1, start + 2, start + 3]);
        assert_eq!(buffer.channel_unchecked(index), channel);
    }
}

#[test]
fn owned_channel_one_past_the_last_is_not_found() {
    let mut buffer = seeded::<3>(4);
    assert!(buffer.channel(2).is_some());
    assert!(buffer.channel(3).is_none());
    assert!(buffer.channel(usize::MAX).is_none());
    assert!(buffer.channel_mut(2).is_some());
    assert!(buffer.channel_mut(3).is_none());
}

#[test]
fn owned_channels_do_not_overlap() {
    let buffer = seeded::<3>(4);
    let slices = buffer.as_slices();
    let base = buffer.raw().as_ptr() as usize;
    let size = std::mem::size_of::<u32>();
    for (index, slice) in slices.iter().enumerate() {
        assert_eq!(slice.len(), 4);
        assert_eq!(slice.as_ptr() as usize, base + index * 4 * size);
    }
    for a in 0..3 {
        for b in (a + 1)..3 {
            let end_a = slices[a].as_ptr() as usize + slices[a].len() * size;
            assert!(end_a <= slices[b].as_ptr() as usize);
        }
    }
}

#[test]
fn owned_scenario_two_channels_four_frames() {
    let mut buffer = ChannelBuffer::<f32, 2>::new(4);
    {
        let [left, right] = buffer.as_mut_slices();
        left.copy_from_slice(&[1.0, 2.0, 3.0, 4.0]);
        right.copy_from_slice(&[5.0, 6.0, 7.0, 8.0]);
    }
    let [left, right] = buffer.as_slices();
    assert_eq!(left, &[1.0, 2.0, 3.0, 4.0]);
    assert_eq!(right, &[5.0, 6.0, 7.0, 8.0]);
    assert_eq!(buffer.raw(), &[1.0, 2.0, 3.0, 4.0, 5.0, 6.0, 7.0, 8.0]);
}

#[test]
fn owned_channel_mut_writes_one_channel() {
    let mut buffer = seeded::<3>(2);
    buffer.channel_mut(1).unwrap().copy_from_slice(&[7, 8]);
    assert_eq!(buffer.raw(), &[100, 101, 7, 8, 104, 105]);
    buffer.channel_unchecked_mut(2)[0] = 9;
    assert_eq!(buffer.raw(), &[100, 101, 7, 8, 9, 105]);
}

#[test]
fn owned_slices_with_length_are_clamped() {
    let buffer = seeded::<2>(4);
    for (requested, expected) in [(0usize, 0usize), (1, 1), (3, 3), (4, 4), (5, 4), (usize::MAX, 4)] {
        let [a, b] = buffer.as_slices_with_length(requested);
        assert_eq!(a.len(), expected);
        assert_eq!(b.len(), expected);
        assert_eq!(a, &buffer.channel(0).unwrap()[..expected]);
        assert_eq!(b, &buffer.channel(1).unwrap()[..expected]);
    }
}

#[test]
fn owned_slices_with_range_are_clamped() {
    let buffer = seeded::<2>(4);
    let cases = [
        (0usize, 4usize, 0usize, 4usize),
        (1, 3, 1, 2),
        (2, 9, 2, 2),
        (4, 9, 4, 0),
        (7, 9, 4, 0),
        (3, 3, 3, 0),
        (0, 0, 0, 0),
    ];
    for (start, end, first, len) in cases {
        let [a, b] = buffer.as_slices_with_range(start..end);
        assert_eq!(a.len(), len);
        assert_eq!(a.len(), end.min(4) - start.min(4));
        assert_eq!(a, &buffer.channel(0).unwrap()[first..first + len]);
        assert_eq!(b, &buffer.channel(1).unwrap()[first..first + len]);
    }
}

#[test]
fn owned_slices_with_reversed_range_are_empty() {
    let mut buffer = seeded::<2>(4);
    let [a, b] = buffer.as_slices_with_range(3..1);
    assert!(a.is_empty() && b.is_empty());
    let [a, b] = buffer.as_mut_slices_with_range(3..1);
    assert!(a.is_empty() && b.is_empty());
}

#[test]
fn owned_mut_slices_with_length_write_the_front() {
    let mut buffer = seeded::<2>(3);
    {
        let [a, b] = buffer.as_mut_slices_with_length(2);
        assert_eq!(a.len(), 2);
        a.copy_from_slice(&[1, 2]);
        b.copy_from_slice(&[3, 4]);
    }
    assert_eq!(buffer.raw(), &[1, 2, 102, 3, 4, 105]);
    let [a, _] = buffer.as_mut_slices_with_length(10);
    assert_eq!(a.len(), 3);
}

#[test]
fn owned_mut_slices_with_range_write_the_middle() {
    let mut buffer = seeded::<2>(4);
    {
        let [a, b] = buffer.as_mut_slices_with_range(1..3);
        a.copy_from_slice(&[1, 2]);
        b.copy_from_slice(&[3, 4]);
    }
    assert_eq!(buffer.raw(), &[100, 1, 2, 103, 104, 3, 4, 107]);
    {
        let [a, b] = buffer.as_mut_slices_with_range(3..20);
        assert_eq!(a.len(), 1);
        a[0] = 5;
        b[0] = 6;
    }
    assert_eq!(buffer.raw(), &[100, 1, 2, 5, 104, 3, 4, 6]);
}

#[test]
fn owned_clear_resets_every_sample() {
    let mut buffer = seeded::<3>(4);
    buffer.clear();
    assert_eq!(buffer.raw(), &[0; 12]);
    assert_eq!(buffer.frames(), 4);
}

#[test]
fn owned_clear_frames_resets_the_front_of_each_channel() {
    let mut buffer = seeded::<2>(4);
    buffer.clear_frames(2);
    assert_eq!(buffer.raw(), &[0, 0, 102, 103, 0, 0, 106, 107]);
    buffer.clear_frames(0);
    assert_eq!(buffer.raw(), &[0, 0, 102, 103, 0, 0, 106, 107]);
    buffer.clear_frames(9);
    assert_eq!(buffer.raw(), &[0; 8]);
}

#[test]
fn owned_clone_is_independent() {
    let first = seeded::<2>(3);
    let mut second = first.clone();
    assert_eq!(second.raw(), first.raw());
    assert_eq!(second.frames(), first.frames());
    assert_ne!(second.raw().as_ptr(), first.raw().as_ptr());
    second.raw_mut()[0] = 1;
    second.channel_mut(1).unwrap()[2] = 2;
    assert_eq!(first.raw(), &[100, 101, 102, 103, 104, 105]);
    assert_eq!(second.raw(), &[1, 101, 102, 103, 104, 2]);
}

#[test]
fn owned_views_read_and_write_the_buffer() {
    let mut buffer = seeded::<2>(2);
    {
        let view = buffer.as_ref();
        assert_eq!(view.frames(), 2);
        assert_eq!(view.raw(), &[100, 101, 102, 103]);
        assert_eq!(view.channel(1).unwrap(), &[102, 103]);
    }
    {
        let mut view = buffer.as_mut();
        view.channel_mut(0).unwrap()[1] = 5;
        view.clear_frames(1);
    }
    assert_eq!(buffer.raw(), &[0, 5, 0, 103]);
}

#[test]
fn owned_into_vec_gives_the_region() {
    let buffer = seeded::<2>(2);
    assert_eq!(buffer.into_vec(), vec![100, 101, 102, 103]);
}

#[test]
fn owned_index_reads_a_channel() {
    let buffer = seeded::<2>(2);
    assert_eq!(&buffer[0], &[100, 101]);
    assert_eq!(&buffer[1], &[102, 103]);
    assert_eq!(buffer[1][1], 103);
}
