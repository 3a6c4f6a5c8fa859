use audio_channel_buffer::instance_buffer::block_views_mut;
use audio_channel_buffer::InstanceChannelBuffer;

fn seeded(instances: usize, frames: usize) -> InstanceChannelBuffer<u32, 4, 2> {
    let mut buffer = InstanceChannelBuffer::<u32, 4, 2>::new(instances, frames);
    for (i, sample) in buffer.raw_mut().iter_mut().enumerate() {
        *sample = 100 + i as u32;
    }
    buffer
}

#[test]
fn instances_new_is_default_valued() {
    let buffer = InstanceChannelBuffer::<f32, 4, 2>::new(3, 5);
    assert_eq!(buffer.num_instances(), 3);
    assert_eq!(buffer.channels(), 2);
    assert_eq!(buffer.frames(), 5);
    assert_eq!(buffer.raw().len(), 30);
    assert!(buffer.raw().iter().all(|s| *s == 0.0));
}

#[test]
fn instances_empty_has_no_samples() {
    let buffer = InstanceChannelBuffer::<u32, 4, 2>::empty();
    assert_eq!(buffer.num_instances(), 4);
    assert_eq!(buffer.frames(), 0);
    assert!(buffer.raw().is_empty());
    let view = buffer.instance(3).unwrap();
    assert_eq!(view.frames(), 0);
    assert!(view.raw().is_empty());
    assert!(buffer.instance(4).is_none());
    let buffer: InstanceChannelBuffer<u32, 4, 2> = Default::default();
    assert_eq!(buffer.num_instances(), 4);
    assert!(buffer.raw().is_empty());
}

#[test]
fn instances_new_with_no_instances() {
    let buffer = InstanceChannelBuffer::<u32, 4, 2>::new(0, 5);
    assert_eq!(buffer.num_instances(), 0);
    assert_eq!(buffer.frames(), 5);
    assert!(buffer.raw().is_empty());
    assert!(buffer.instance(0).is_none());
    assert!(buffer.all_instances().is_empty());
}

#[test]
fn instances_new_uninit_has_the_layout() {
    let buffer = InstanceChannelBuffer::<u32, 4, 2>::new_uninit(3, 2);
    assert_eq!(buffer.num_instances(), 3);
    assert_eq!(buffer.frames(), 2);
    assert_eq!(buffer.raw().len(), 12);
}

#[test]
fn instances_are_blocks_of_channels() {
    let buffer = seeded(3, 2);
    let second = buffer.instance(1).unwrap();
    assert_eq!(second.frames(), 2);
    assert_eq!(second.channels(), 2);
    assert_eq!(second.raw(), &[104, 105, 106, 107]);
    assert_eq!(second.channel(0).unwrap(), &[104, 105]);
    assert_eq!(second.channel(1).unwrap(), &[106, 107]);
    assert_eq!(buffer.instance_unchecked(2).raw(), &[108, 109, 110, 111]);
    assert!(buffer.instance(2).is_some());
    assert!(buffer.instance(3).is_none());
}

#[test]
fn instances_mut_writes_one_instance() {
    let mut buffer = seeded(3, 2);
    {
        let mut second = buffer.instance_mut(1).unwrap();
        second.channel_mut(1).unwrap().copy_from_slice(&[1, 2]);
    }
    {
        let mut last = buffer.instance_unchecked_mut(2);
        last.clear_frames(1);
    }
    assert!(buffer.instance_mut(3).is_none());
    assert_eq!(buffer.raw(), &[100, 101, 102, 103, 104, 105, 1, 2, 0, 109, 0, 111]);
}

#[test]
fn instances_all_in_index_order() {
    let mut buffer = seeded(3, 1);
    {
        let views = buffer.all_instances();
        assert_eq!(views.len(), 3);
        for (index, view) in views.iter().enumerate() {
            let start = 100 + 2 * index as u32;
            assert_eq!(view.raw(), &[start, start + 1]);
        }
        let again = buffer.all_instances();
        assert_eq!(again[0].raw(), views[0].raw());
    }
    {
        let mut views = buffer.all_instances_mut();
        assert_eq!(views.len(), 3);
        for (index, view) in views.iter_mut().enumerate() {
            view.channel_mut(0).unwrap()[0] = index as u32;
        }
    }
    assert_eq!(buffer.raw(), &[0, 101, 1, 103, 2, 105]);
}

#[test]
fn instances_set_num_instances_to_the_same_number_changes_nothing() {
    let mut buffer = seeded(2, 2);
    let address = buffer.raw().as_ptr();
    buffer.set_num_instances(2);
    assert_eq!(buffer.num_instances(), 2);
    assert_eq!(buffer.raw(), &[100, 101, 102, 103, 104, 105, 106, 107]);
    assert_eq!(buffer.raw().as_ptr(), address);
}

#[test]
fn instances_set_num_instances_grows_and_shrinks() {
    let mut buffer = seeded(2, 1);
    buffer.set_num_instances(4);
    assert_eq!(buffer.num_instances(), 4);
    assert_eq!(buffer.raw(), &[100, 101, 102, 103, 0, 0, 0, 0]);
    assert_eq!(buffer.instance(3).unwrap().raw(), &[0, 0]);
    buffer.set_num_instances(1);
    assert_eq!(buffer.num_instances(), 1);
    assert_eq!(buffer.raw(), &[100, 101]);
    assert!(buffer.instance(1).is_none());
    buffer.set_num_instances(6);
    assert_eq!(buffer.num_instances(), 6);
    assert_eq!(buffer.raw().len(), 12);
    buffer.set_num_instances(0);
    assert!(buffer.raw().is_empty());
}

#[test]
fn instances_set_num_instances_uninit_keeps_the_old_instances() {
    let mut buffer = seeded(1, 2);
    buffer.set_num_instances_uninit(2);
    assert_eq!(buffer.num_instances(), 2);
    assert_eq!(&buffer.raw()[..4], &[100, 101, 102, 103]);
    assert_eq!(buffer.raw().len(), 8);
}

#[test]
fn instances_clear_resets_every_sample() {
    let mut buffer = seeded(2, 2);
    buffer.clear();
    assert_eq!(buffer.raw(), &[0; 8]);
    assert_eq!(buffer.num_instances(), 2);
}

#[test]
fn instances_clone_is_independent() {
    let first = seeded(2, 1);
    let mut second = first.clone();
    assert_eq!(second.raw(), first.raw());
    assert_eq!(second.num_instances(), 2);
    assert_ne!(second.raw().as_ptr(), first.raw().as_ptr());
    second.raw_mut()[3] = 0;
    assert_eq!(first.raw(), &[100, 101, 102, 103]);
    assert_eq!(second.into_vec(), vec![100, 101, 102, 0]);
}

#[test]
fn instances_block_views_cut_the_region_once() {
    let mut data = [0u32; 9];
    {
        let mut views = block_views_mut::<u32, 2>(&mut data, 2, 2, 4);
        assert_eq!(views.len(), 2);
        assert_eq!(views[0].frames(), 2);
        views[0].channel_mut(1).unwrap().copy_from_slice(&[1, 2]);
        views[1].raw_mut().copy_from_slice(&[3, 4, 5, 6]);
    }
    assert_eq!(data, [0, 0, 1, 2, 3, 4, 5, 6, 0]);
}
