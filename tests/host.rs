use jxl_slice::session::{
    count_frames, decode_image, encoding_for_width, frame_tally, pack_dimensions,
    packed_dimensions,
};
use jxl_slice::{decode, decode_with_sample_size, frame_count, free, height_and_width, malloc};
use jxl_slice::{Arena, DecodeError, SampleEncoding};

#[test]
fn release_after_allocate_keeps_other_buffers() {
    let mut a = Arena::new();
    let first = malloc(&mut a, 4);
    let second = malloc(&mut a, 8);
    assert!(a.write(first, 0, &[1, 2, 3, 4]));
    assert!(free(&mut a, second, 8));
    assert_eq!(a.contents(first), Some(&vec![1, 2, 3, 4]));
    assert_eq!(a.contents(second), None);
}

#[test]
fn release_with_wrong_size_is_refused() {
    let mut a = Arena::new();
    let h = malloc(&mut a, 16);
    assert!(!free(&mut a, h, 15));
    assert_eq!(a.contents(h).map(|v| v.len()), Some(16));
    assert!(free(&mut a, h, 16));
    assert!(!free(&mut a, h, 16));
    assert!(!free(&mut a, 99, 0));
}

#[test]
fn write_and_read_back() {
    let mut a = Arena::new();
    let h = a.allocate(5);
    assert!(a.write(h, 1, &[7, 8]));
    assert_eq!(a.contents(h), Some(&vec![0, 7, 8, 0, 0]));
    assert!(!a.write(h, 4, &[1, 2]));
    assert_eq!(a.read_prefix(h, 3), Some(vec![0, 7, 8]));
    assert_eq!(a.read_prefix(h, 6), None);
    let o = a.adopt(vec![5, 6]);
    assert_eq!(o, 1);
    assert_eq!(a.handle_count(), 2);
}

#[test]
fn decode_rejects_empty_input() {
    assert_eq!(decode_image(&[], 4, SampleEncoding::UInt8), Err(DecodeError::InvalidArgument));
    let mut a = Arena::new();
    let h = malloc(&mut a, 8);
    assert_eq!(decode(&mut a, h, 0, 4), None);
    assert_eq!(a.handle_count(), 1);
}

#[test]
fn decode_rejects_zero_output_size() {
    assert_eq!(decode_image(&[0xff, 0x0a], 0, SampleEncoding::UInt8), Err(DecodeError::InvalidArgument));
}

#[test]
fn decode_rejects_missing_buffer() {
    let mut a = Arena::new();
    assert_eq!(decode(&mut a, 3, 4, 4), None);
    let h = malloc(&mut a, 2);
    assert_eq!(decode(&mut a, h, 3, 4), None);
    assert!(free(&mut a, h, 2));
    assert_eq!(decode(&mut a, h, 2, 4), None);
}

#[test]
fn decode_rejects_malformed_input() {
    assert_eq!(
        decode_image(b"not an image at all", 16, SampleEncoding::UInt8),
        Err(DecodeError::ParseFailure)
    );
    let truncated = [0xffu8, 0x0a];
    assert_eq!(decode_image(&truncated, 16, SampleEncoding::UInt16Le), Err(DecodeError::ParseFailure));
    let mut a = Arena::new();
    let h = malloc(&mut a, 8);
    assert!(a.write(h, 0, b"garbage!"));
    assert_eq!(decode_with_sample_size(&mut a, h, 8, 16, 4), None);
    assert_eq!(a.handle_count(), 1);
}

#[test]
fn decode_rejects_unknown_sample_width() {
    let mut a = Arena::new();
    let h = malloc(&mut a, 8);
    assert_eq!(decode_with_sample_size(&mut a, h, 8, 16, 3), None);
    assert_eq!(encoding_for_width(3), None);
    assert_eq!(encoding_for_width(1), Some(SampleEncoding::UInt8));
    assert_eq!(encoding_for_width(2), Some(SampleEncoding::UInt16Le));
    assert_eq!(encoding_for_width(4), Some(SampleEncoding::Float32Le));
}

#[test]
fn dimension_sentinels() {
    assert_eq!(packed_dimensions(&[]), -1);
    assert_eq!(packed_dimensions(b"garbage"), -2);
    let mut a = Arena::new();
    let h = malloc(&mut a, 4);
    assert_eq!(height_and_width(&a, h, 0), -1);
    assert_eq!(height_and_width(&a, h, 5), -1);
    assert_eq!(height_and_width(&a, h, 4), -2);
}

#[test]
fn dimensions_pack_height_high_width_low() {
    assert_eq!(pack_dimensions(3, 5), 3 * (1i64 << 31) + 5);
    assert_eq!(pack_dimensions(1, (1u32 << 31) + 7), (1i64 << 31) + 7);
    assert_eq!(pack_dimensions(u32::MAX, 0), (u32::MAX as i64) << 31);
}

#[test]
fn frame_count_sentinels() {
    assert_eq!(count_frames(&[]), -1);
    assert_eq!(count_frames(b"garbage"), -2);
    let mut a = Arena::new();
    let h = malloc(&mut a, 4);
    assert_eq!(frame_count(&a, h, 0), -1);
    assert_eq!(frame_count(&a, 9, 4), -1);
    assert_eq!(frame_count(&a, h, 4), -2);
}

#[test]
fn tally_is_count_or_sentinel() {
    assert_eq!(frame_tally(&vec![true]), 1);
    assert_eq!(frame_tally(&vec![true, true, true]), 3);
    assert_eq!(frame_tally(&vec![true, false]), -3);
    assert_eq!(frame_tally(&vec![]), -4);
}
