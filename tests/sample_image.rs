use jxl_slice::session::{count_frames, decode_image, packed_dimensions};
use jxl_slice::{decode, decode_with_sample_size, frame_count, free, height_and_width, malloc};
use jxl_slice::{Arena, DecodeError, SampleEncoding};

/// A 240 x 135 RGB codestream with one keyframe.
const TINY: [u8; 42] = [
    0xff, 0x0a, 0x30, 0x54, 0x10, 0x09, 0x08, 0x06, 0x01, 0x00, 0x78, 0x00, 0x4b, 0x38, 0x41,
    0x3c, 0xb6, 0x3a, 0x51, 0xfe, 0x00, 0x47, 0x1e, 0xa0, 0x85, 0xb8, 0x27, 0x1a, 0x48, 0x45,
    0x84, 0x1b, 0x71, 0x4f, 0xa8, 0x3e, 0x8e, 0x30, 0x03, 0x92, 0x84, 0x01,
];
const W: usize = 240;
const H: usize = 135;

fn loaded(arena: &mut Arena, bytes: &[u8]) -> usize {
    let h = malloc(arena, bytes.len());
    assert!(arena.write(h, 0, bytes));
    h
}

#[test]
fn tiny_image_dimensions() {
    assert_eq!(packed_dimensions(&TINY), ((H as i64) << 31) | W as i64);
    let mut a = Arena::new();
    let h = loaded(&mut a, &TINY);
    let hw = height_and_width(&a, h, TINY.len());
    assert_eq!(hw & 0x7fff_ffff, W as i64);
    assert_eq!(hw >> 31, H as i64);
}

#[test]
fn tiny_image_has_one_frame() {
    assert_eq!(count_frames(&TINY), 1);
    let mut a = Arena::new();
    let h = loaded(&mut a, &TINY);
    assert_eq!(frame_count(&a, h, TINY.len()), 1);
}

#[test]
fn tiny_image_decodes_to_requested_length() {
    let mut a = Arena::new();
    let h = loaded(&mut a, &TINY);
    let hw = height_and_width(&a, h, TINY.len());
    let (w, ht) = ((hw & 0x7fff_ffff) as usize, (hw >> 31) as usize);
    let out = decode(&mut a, h, TINY.len(), w * ht * 4).unwrap();
    let bytes = a.contents(out).unwrap();
    assert_eq!(bytes.len(), w * ht * 4);
    assert_eq!(&bytes[..8], &[6, 6, 6, 255, 12, 12, 12, 255]);
    assert!(free(&mut a, out, w * ht * 4));
    assert_eq!(a.contents(h).unwrap().as_slice(), &TINY[..]);
}

#[test]
fn tiny_image_rejects_mismatched_size() {
    assert_eq!(decode_image(&TINY, W * H * 3, SampleEncoding::UInt8), Err(DecodeError::SizeMismatch));
    assert_eq!(decode_image(&TINY, W * H * 4 + 1, SampleEncoding::UInt8), Err(DecodeError::SizeMismatch));
    let mut a = Arena::new();
    let h = loaded(&mut a, &TINY);
    assert_eq!(decode(&mut a, h, TINY.len(), W * H * 3), None);
    assert_eq!(a.handle_count(), 1);
}

#[test]
fn tiny_image_truncated_gives_nothing() {
    let mut a = Arena::new();
    let h = loaded(&mut a, &TINY[..20]);
    assert_eq!(decode(&mut a, h, 20, W * H * 4), None);
    assert!(decode_image(&TINY[..20], W * H * 4, SampleEncoding::UInt8).is_err());
    assert!(count_frames(&TINY[..20]) < 0);
}

#[test]
fn tiny_image_alpha_is_opaque_in_every_width() {
    let r8 = decode_image(&TINY, W * H * 4, SampleEncoding::UInt8).unwrap();
    assert!(r8.chunks(4).all(|p| p[3] == 255));
    let r16 = decode_image(&TINY, W * H * 8, SampleEncoding::UInt16Le).unwrap();
    assert!(r16.chunks(8).all(|p| p[6] == 0xff && p[7] == 0xff));
    let r32 = decode_image(&TINY, W * H * 16, SampleEncoding::Float32Le).unwrap();
    assert!(r32.chunks(16).all(|p| p[12..16] == 1.0f32.to_le_bytes()));
}

#[test]
fn tiny_image_float_samples_in_unit_interval() {
    let mut a = Arena::new();
    let h = loaded(&mut a, &TINY);
    let out = decode_with_sample_size(&mut a, h, TINY.len(), W * H * 16, 4).unwrap();
    let bytes = a.contents(out).unwrap();
    for w in bytes.chunks(4) {
        let v = f32::from_le_bytes([w[0], w[1], w[2], w[3]]);
        assert!((0.0..=1.0).contains(&v));
    }
}

#[test]
fn tiny_image_wide_samples_agree_with_bytes() {
    let r8 = decode_image(&TINY, W * H * 4, SampleEncoding::UInt8).unwrap();
    let r16 = decode_image(&TINY, W * H * 8, SampleEncoding::UInt16Le).unwrap();
    for (i, w) in r16.chunks(2).enumerate() {
        let v = u16::from_le_bytes([w[0], w[1]]) as i32;
        let narrow = r8[i] as i32 * 257;
        assert!((v - narrow).abs() <= 257);
    }
}

#[test]
fn tiny_image_queries_agree() {
    assert_eq!(packed_dimensions(&TINY), packed_dimensions(&TINY.to_vec()));
    let a = decode_image(&TINY, W * H * 4, SampleEncoding::UInt8);
    let b = decode_image(&TINY, W * H * 4, SampleEncoding::UInt8);
    assert_eq!(a, b);
    assert_eq!(count_frames(&TINY), count_frames(&TINY));
}
