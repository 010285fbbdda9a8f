use deorr::job::plan_sort;
use deorr::kind::DeorrType;
use deorr::layout::{
    length_scalar, pad_input, plan_layout, take_logical, workgroup_count, BufferLayout,
};

#[test]
fn workgroups_round_up() {
    assert_eq!(workgroup_count(0), 0);
    assert_eq!(workgroup_count(1), 1);
    assert_eq!(workgroup_count(64), 1);
    assert_eq!(workgroup_count(65), 2);
    assert_eq!(workgroup_count(1000), 16);
    assert_eq!(workgroup_count(u32::MAX), 67108864);
}

#[test]
fn layout_pads_to_alignment() {
    let l = plan_layout(4, 12, 256);
    assert_eq!(
        l,
        BufferLayout { logical_size: 48, padded_size: 256, padding_bytes: 208 }
    );
}

#[test]
fn layout_already_aligned_has_no_padding() {
    let l = plan_layout(4, 64, 256);
    assert_eq!(
        l,
        BufferLayout { logical_size: 256, padded_size: 256, padding_bytes: 0 }
    );
}

#[test]
fn layout_of_nothing_is_empty() {
    let l = plan_layout(4, 0, 32);
    assert_eq!(l, BufferLayout { logical_size: 0, padded_size: 0, padding_bytes: 0 });
}

#[test]
fn padding_is_zero_filled() {
    let l = plan_layout(4, 3, 32);
    let data: Vec<u8> = (1..=12u8).collect();
    let padded = pad_input(&data, &l);
    assert_eq!(padded.len(), 32);
    assert_eq!(&padded[..12], &data[..]);
    assert!(padded[12..].iter().all(|b| *b == 0));
}

#[test]
fn readback_returns_exactly_the_data() {
    let l = plan_layout(4, 5, 256);
    let data: Vec<u8> = (1..=20u8).collect();
    let padded = pad_input(&data, &l);
    assert_eq!(padded.len(), 256);
    let back = take_logical(&padded, l.logical_size as usize);
    assert_eq!(back.len(), 20);
    assert_eq!(back, data);
}

#[test]
fn length_scalar_holds_the_count() {
    let bytes = length_scalar(1000);
    assert_eq!(bytes.len(), 4);
    assert_eq!(u32::from_ne_bytes([bytes[0], bytes[1], bytes[2], bytes[3]]), 1000);
}

#[test]
fn empty_sort_has_no_plan() {
    assert!(plan_sort(DeorrType::U32, 0, 256).is_none());
}

#[test]
fn plan_for_unaligned_count() {
    let p = plan_sort(DeorrType::I32, 100, 256).unwrap();
    assert_eq!(p.kind, DeorrType::I32);
    assert_eq!(p.length, 100);
    assert_eq!(p.groups, 2);
    assert_eq!(p.layout.logical_size, 400);
    assert_eq!(p.layout.padded_size, 512);
    assert_eq!(p.layout.padding_bytes, 112);
}

#[test]
fn length_scalar_is_the_count_in_either_byte_order() {
    let count: u32 = 0x0102_0304;
    let bytes = length_scalar(count);
    assert!(bytes == count.to_le_bytes().to_vec() || bytes == count.to_be_bytes().to_vec());
    assert_eq!(bytes, count.to_ne_bytes().to_vec());
}

#[test]
fn readback_is_the_same_for_every_alignment() {
    let data: Vec<u8> = (1..=28u8).collect();
    let mut results = vec![];
    for alignment in [1u32, 4, 32, 64, 256] {
        let l = plan_layout(4, 7, alignment);
        let padded = pad_input(&data, &l);
        assert_eq!(padded.len() as u64, l.padded_size);
        results.push(take_logical(&padded, l.logical_size as usize));
    }
    for r in &results {
        assert_eq!(r, &data);
    }
}
