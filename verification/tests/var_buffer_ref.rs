use audio_channel_buffer::{VarChannelBufferRef, VarChannelBufferRefMut};

#[test]
fn var_ref_new_divides_the_region() {
    let data = [1u32, 2, 3, 4, 5, 6, 7];
    let view = VarChannelBufferRef::<u32, 4>::new(&data, 3);
    assert_eq!(view.channels(), 3);
    assert_eq!(view.frames(), 2);
    assert_eq!(view.channel(0).unwrap(), &[1, 2]);
    assert_eq!(view.channel(2).unwrap(), &[5, 6]);
    assert_eq!(view.channel_unchecked(1), &[3, 4]);
    assert!(view.channel(3).is_none());
    assert_eq!(view.raw(), &data);
    assert_eq!(&view[1], &[3, 4]);
}

#[test]
fn var_ref_new_unchecked_takes_frames_and_channels() {
    let data = [1u32, 2, 3, 4, 5, 6, 7];
    let view = VarChannelBufferRef::<u32, 4>::new_unchecked(&data, 3, 2);
    assert_eq!(view.channels(), 2);
    assert_eq!(view.frames(), 3);
    let slices = view.as_slices();
    assert_eq!(slices.len(), 2);
    assert_eq!(slices[0], &[1, 2, 3]);
    assert_eq!(slices[1], &[4, 5, 6]);
}

#[test]
fn var_ref_empty_and_default() {
    let view = VarChannelBufferRef::<u32, 4>::empty();
    assert_eq!(view.channels(), 1);
    assert_eq!(view.frames(), 0);
    assert!(view.channel(0).unwrap().is_empty());
    let view: VarChannelBufferRef<u32, 4> = Default::default();
    assert_eq!(view.channels(), 1);
    let view = VarChannelBufferRefMut::<u32, 4>::empty();
    assert_eq!(view.channels(), 1);
    assert!(view.raw().is_empty());
    let view: VarChannelBufferRefMut<u32, 4> = Default::default();
    assert_eq!(view.frames(), 0);
    let clone = VarChannelBufferRef::<u32, 4>::empty().clone();
    assert_eq!(clone.channels(), 1);
}

#[test]
fn var_ref_windows_are_clamped() {
    let data = [0u32, 1, 2, 3, 10, 11, 12, 13];
    let view = VarChannelBufferRef::<u32, 2>::new(&data, 2);
    assert_eq!(view.as_slices_with_length(2)[1], &[10, 11]);
    assert_eq!(view.as_slices_with_length(usize::MAX)[0], &[0, 1, 2, 3]);
    assert_eq!(view.as_slices_with_range(1..2)[1], &[11]);
    assert_eq!(view.as_slices_with_range(2..usize::MAX)[0], &[2, 3]);
    assert!(view.as_slices_with_range(9..12)[0].is_empty());
    assert!(view.as_slices_with_range(2..0)[0].is_empty());
}

#[test]
fn var_ref_mut_all_channels_are_disjoint() {
    let mut data = [0u32; 7];
    {
        let mut view = VarChannelBufferRefMut::<u32, 4>::new(&mut data, 3);
        assert_eq!(view.frames(), 2);
        let mut slices = view.as_mut_slices();
        assert_eq!(slices.len(), 3);
        for (index, slice) in slices.iter_mut().enumerate() {
            slice.fill(index as u32 + 1);
        }
    }
    assert_eq!(data, [1, 1, 2, 2, 3, 3, 0]);
}

#[test]
fn var_ref_mut_reads_what_it_wrote() {
    let mut data = [0u32; 6];
    let mut view = VarChannelBufferRefMut::<u32, 3>::new_unchecked(&mut data, 2, 3);
    view.channel_mut(1).unwrap().copy_from_slice(&[3, 4]);
    view.channel_unchecked_mut(2)[1] = 9;
    assert!(view.channel_mut(3).is_none());
    assert_eq!(view.channel(1).unwrap(), &[3, 4]);
    assert_eq!(view.channel_unchecked(2), &[0, 9]);
    assert_eq!(&view[2], &[0, 9]);
    {
        let mut front = view.as_mut_slices_with_length(1);
        front[0][0] = 7;
    }
    {
        let mut back = view.as_mut_slices_with_range(1..5);
        back[0][0] = 8;
    }
    assert_eq!(view.as_slices()[0], &[7, 8]);
    assert_eq!(view.as_slices_with_length(1)[1], &[3]);
    assert_eq!(view.as_slices_with_range(1..2)[2], &[9]);
    assert_eq!(view.raw(), &[7, 8, 3, 4, 0, 9]);
}

#[test]
fn var_ref_mut_clear_and_clear_frames() {
    let mut data = [1u32, 2, 3, 4, 5, 6, 7];
    let mut view = VarChannelBufferRefMut::<u32, 2>::new(&mut data, 2);
    view.clear_frames(1);
    assert_eq!(view.raw(), &[0, 2, 3, 0, 5, 6, 7]);
    view.clear();
    assert_eq!(view.raw(), &[0; 7]);
}

#[test]
fn var_ref_mut_gives_the_region_back() {
    let mut data = [1u32, 2, 3, 4];
    {
        let mut view = VarChannelBufferRefMut::<u32, 2>::new(&mut data, 2);
        view.raw_mut()[0] = 9;
        let shared = view.into_ref();
        assert_eq!(shared.channel(0).unwrap(), &[9, 2]);
        assert_eq!(shared.channels(), 2);
    }
    {
        let view = VarChannelBufferRefMut::<u32, 2>::new(&mut data, 1);
        assert_eq!(view.into_raw(), &[9, 2, 3, 4]);
    }
    {
        let view = VarChannelBufferRefMut::<u32, 2>::new(&mut data, 1);
        view.into_raw_mut()[3] = 0;
    }
    assert_eq!(data, [9, 2, 3, 0]);
}

#[test]
fn var_ref_mut_slices_do_not_overlap() {
    let mut data = [0u16; 12];
    let base = data.as_ptr() as usize;
    let mut view = VarChannelBufferRefMut::<u16, 8>::new(&mut data, 3);
    let slices = view.as_mut_slices();
    let size = std::mem::size_of::<u16>();
    for (index, slice) in slices.iter().enumerate() {
        assert_eq!(slice.len(), 4);
        assert_eq!(slice.as_ptr() as usize, base + index * 4 * size);
    }
}
