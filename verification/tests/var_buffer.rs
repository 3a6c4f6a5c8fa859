use audio_channel_buffer::VarChannelBuffer;

fn seeded(channels: usize, frames: usize) -> VarChannelBuffer<u32, 8> {
    let mut buffer = VarChannelBuffer::<u32, 8>::new(channels, frames);
    for (i, sample) in buffer.raw_mut().iter_mut().enumerate() {
        *sample = 100 + i as u32;
    }
    buffer
}

#[test]
fn var_new_is_default_valued() {
    let buffer = VarChannelBuffer::<f64, 8>::new(3, 5);
    assert_eq!(buffer.channels(), 3);
    assert_eq!(buffer.frames(), 5);
    assert_eq!(buffer.raw().len(), 15);
    assert!(buffer.raw().iter().all(|s| *s == 0.0));
}

#[test]
fn var_new_with_the_most_channels() {
    let buffer = VarChannelBuffer::<u8, 4>::new(4, 2);
    assert_eq!(buffer.channels(), 4);
    assert_eq!(buffer.as_slices().len(), 4);
    let buffer = VarChannelBuffer::<u8, 1>::new(1, 2);
    assert_eq!(buffer.channels(), 1);
}

#[test]
fn var_empty_has_one_channel_of_no_samples() {
    let buffer = VarChannelBuffer::<u32, 8>::empty();
    assert_eq!(buffer.channels(), 1);
    assert_eq!(buffer.frames(), 0);
    assert!(buffer.raw().is_empty());
    assert!(buffer.channel(0).unwrap().is_empty());
    assert!(buffer.channel(1).is_none());
    let buffer: VarChannelBuffer<u32, 8> = Default::default();
    assert_eq!(buffer.channels(), 1);
    assert!(buffer.raw().is_empty());
}

#[test]
fn var_new_uninit_has_the_layout() {
    let mut buffer = VarChannelBuffer::<u32, 8>::new_uninit(2, 3);
    assert_eq!(buffer.channels(), 2);
    assert_eq!(buffer.frames(), 3);
    assert_eq!(buffer.raw().len(), 6);
    buffer.raw_mut().copy_from_slice(&[1, 2, 3, 4, 5, 6]);
    assert_eq!(buffer.channel(1).unwrap(), &[4, 5, 6]);
}

#[test]
fn var_channel_one_past_the_last_is_not_found() {
    let mut buffer = seeded(3, 4);
    assert_eq!(buffer.channel(2).unwrap(), &[108, 109, 110, 111]);
    assert_eq!(buffer.channel_unchecked(0), &[100, 101, 102, 103]);
    assert!(buffer.channel(3).is_none());
    assert!(buffer.channel(7).is_none());
    assert!(buffer.channel_mut(2).is_some());
    assert!(buffer.channel_mut(3).is_none());
    assert_eq!(&buffer[1], &[104, 105, 106, 107]);
}

#[test]
fn var_all_channels_in_order() {
    let mut buffer = seeded(3, 2);
    {
        let slices = buffer.as_slices();
        assert_eq!(slices.len(), 3);
        assert_eq!(slices[0], &[100, 101]);
        assert_eq!(slices[1], &[102, 103]);
        assert_eq!(slices[2], &[104, 105]);
    }
    {
        let mut slices = buffer.as_mut_slices();
        assert_eq!(slices.len(), 3);
        slices[0][0] = 1;
        slices[2][1] = 2;
        slices[1].copy_from_slice(&[8, 9]);
    }
    assert_eq!(buffer.raw(), &[1, 101, 8, 9, 104, 2]);
}

#[test]
fn var_windows_are_clamped() {
    let mut buffer = seeded(2, 4);
    assert_eq!(buffer.as_slices_with_length(3)[1], &[104, 105, 106]);
    assert_eq!(buffer.as_slices_with_length(5)[1].len(), 4);
    assert_eq!(buffer.as_slices_with_length(0)[0].len(), 0);
    assert_eq!(buffer.as_slices_with_range(1..3)[0], &[101, 102]);
    assert_eq!(buffer.as_slices_with_range(3..9)[1], &[107]);
    assert_eq!(buffer.as_slices_with_range(4..9)[1].len(), 0);
    assert_eq!(buffer.as_slices_with_range(2..1)[1].len(), 0);
    {
        let mut front = buffer.as_mut_slices_with_length(1);
        front[0][0] = 1;
        front[1][0] = 2;
    }
    {
        let mut middle = buffer.as_mut_slices_with_range(2..7);
        assert_eq!(middle[0].len(), 2);
        middle[0][0] = 3;
        middle[1][1] = 4;
    }
    assert_eq!(buffer.raw(), &[1, 101, 3, 103, 2, 105, 106, 4]);
}

#[test]
fn var_clear_and_clear_frames() {
    let mut buffer = seeded(2, 4);
    buffer.clear_frames(2);
    assert_eq!(buffer.raw(), &[0, 0, 102, 103, 0, 0, 106, 107]);
    buffer.clear_frames(70);
    assert_eq!(buffer.raw(), &[0; 8]);
    let mut buffer = seeded(3, 1);
    buffer.clear();
    assert_eq!(buffer.raw(), &[0; 3]);
    assert_eq!(buffer.channels(), 3);
}

#[test]
fn var_set_num_channels_to_the_same_number_changes_nothing() {
    let mut buffer = seeded(2, 3);
    let address = buffer.raw().as_ptr();
    buffer.set_num_channels(2);
    assert_eq!(buffer.channels(), 2);
    assert_eq!(buffer.frames(), 3);
    assert_eq!(buffer.raw(), &[100, 101, 102, 103, 104, 105]);
    assert_eq!(buffer.raw().as_ptr(), address);
    assert_eq!(buffer.channel(1).unwrap().as_ptr(), address.wrapping_add(3));
}

#[test]
fn var_set_num_channels_grows_with_default_samples() {
    let mut buffer = seeded(2, 3);
    buffer.set_num_channels(4);
    assert_eq!(buffer.channels(), 4);
    assert_eq!(buffer.frames(), 3);
    assert_eq!(buffer.raw(), &[100, 101, 102, 103, 104, 105, 0, 0, 0, 0, 0, 0]);
    assert_eq!(buffer.channel(1).unwrap(), &[103, 104, 105]);
    assert_eq!(buffer.channel(3).unwrap(), &[0, 0, 0]);
    assert!(buffer.channel(4).is_none());
}

#[test]
fn var_set_num_channels_shrinks_and_keeps_the_rest() {
    let mut buffer = seeded(3, 2);
    buffer.set_num_channels(1);
    assert_eq!(buffer.channels(), 1);
    assert_eq!(buffer.raw(), &[100, 101]);
    assert!(buffer.channel(1).is_none());
    buffer.set_num_channels(2);
    assert_eq!(buffer.raw(), &[100, 101, 0, 0]);
}

#[test]
fn var_set_num_channels_uninit_keeps_the_old_channels() {
    let mut buffer = seeded(2, 2);
    buffer.set_num_channels_uninit(3);
    assert_eq!(buffer.channels(), 3);
    assert_eq!(&buffer.raw()[..4], &[100, 101, 102, 103]);
    buffer.channel_mut(2).unwrap().copy_from_slice(&[7, 8]);
    assert_eq!(buffer.raw(), &[100, 101, 102, 103, 7, 8]);
    buffer.set_num_channels_uninit(1);
    assert_eq!(buffer.raw(), &[100, 101]);
}

#[test]
fn var_clone_is_independent() {
    let first = seeded(2, 2);
    let mut second = first.clone();
    assert_eq!(second.raw(), first.raw());
    assert_eq!(second.channels(), 2);
    assert_ne!(second.raw().as_ptr(), first.raw().as_ptr());
    second.channel_unchecked_mut(0)[0] = 1;
    assert_eq!(first.raw(), &[100, 101, 102, 103]);
    assert_eq!(second.raw(), &[1, 101, 102, 103]);
    assert_eq!(second.channel(1).unwrap(), &[102, 103]);
}

#[test]
fn var_views_read_and_write_the_buffer() {
    let mut buffer = seeded(2, 2);
    {
        let view = buffer.as_ref();
        assert_eq!(view.channels(), 2);
        assert_eq!(view.frames(), 2);
        assert_eq!(view.channel(1).unwrap(), &[102, 103]);
    }
    {
        let mut view = buffer.as_mut();
        view.channel_mut(1).unwrap()[0] = 5;
        view.clear_frames(1);
        view.raw_mut()[3] = 6;
    }
    assert_eq!(buffer.raw(), &[0, 101, 0, 6]);
    assert_eq!(buffer.into_vec(), vec![0, 101, 0, 6]);
}
