use jxl_slice::frame::{assemble, fits, insert_alpha, push_frame};
use jxl_slice::sample::{clamp_unit_bits, push_sample, quantize, ONE_BITS};
use jxl_slice::{DecodeError, Frame, SampleEncoding, SourceFormat};

fn bits(values: &[f32]) -> Vec<u32> {
    values.iter().map(|v| v.to_bits()).collect()
}

fn frame(width: u32, height: u32, channels: u32, values: &[f32]) -> Frame {
    Frame { width, height, channels, samples: bits(values) }
}

#[test]
fn quantize_rounds_to_nearest() {
    assert_eq!(quantize(0.5f32.to_bits(), 255), 128);
    assert_eq!(quantize(0.5f32.to_bits(), 65535), 32768);
    assert_eq!(quantize(1.0f32.to_bits(), 255), 255);
    assert_eq!(quantize(0.0f32.to_bits(), 255), 0);
    assert_eq!(quantize((1.0f32 / 255.0).to_bits(), 255), 1);
    assert_eq!(quantize(0.25f32.to_bits(), 255), 64);
    assert_eq!(quantize(0.2f32.to_bits(), 255), 51);
    assert_eq!(quantize(0.1f32.to_bits(), 65535), 6554);
}

#[test]
fn quantize_clamps_out_of_range_values() {
    assert_eq!(quantize((-0.5f32).to_bits(), 255), 0);
    assert_eq!(quantize((-0.0f32).to_bits(), 65535), 0);
    assert_eq!(quantize(1.5f32.to_bits(), 255), 255);
    assert_eq!(quantize(f32::INFINITY.to_bits(), 65535), 65535);
    assert_eq!(quantize(f32::NEG_INFINITY.to_bits(), 255), 0);
    assert_eq!(quantize(f32::NAN.to_bits(), 255), 0);
    assert_eq!(quantize(f32::MIN_POSITIVE.to_bits(), 255), 0);
    assert_eq!(quantize(1.0e-45f32.to_bits(), 65535), 0);
}

#[test]
fn clamp_keeps_unit_values() {
    assert_eq!(clamp_unit_bits(0.75f32.to_bits()), 0.75f32.to_bits());
    assert_eq!(clamp_unit_bits(7.0f32.to_bits()), ONE_BITS);
    assert_eq!(clamp_unit_bits((-7.0f32).to_bits()), 0);
    assert_eq!(clamp_unit_bits(f32::NAN.to_bits()), 0);
}

#[test]
fn sample_bytes_per_encoding() {
    let mut out = vec![9u8];
    push_sample(0.5f32.to_bits(), SampleEncoding::UInt8, &mut out);
    push_sample(0.5f32.to_bits(), SampleEncoding::UInt16Le, &mut out);
    push_sample(0.25f32.to_bits(), SampleEncoding::Float32Le, &mut out);
    push_sample(3.0f32.to_bits(), SampleEncoding::Float32Le, &mut out);
    let mut want = vec![9u8, 128, 0x00, 0x80];
    want.extend_from_slice(&0.25f32.to_le_bytes());
    want.extend_from_slice(&1.0f32.to_le_bytes());
    assert_eq!(out, want);
}

#[test]
fn alpha_is_inserted_after_each_rgb_pixel() {
    let s = vec![1, 2, 3, 4, 5, 6];
    assert_eq!(insert_alpha(&s), vec![1, 2, 3, ONE_BITS, 4, 5, 6, ONE_BITS]);
    assert_eq!(insert_alpha(&vec![]), Vec::<u32>::new());
}

#[test]
fn gray_frame_encodes_one_byte_per_pixel() {
    let frames = vec![frame(2, 1, 1, &[0.0, 1.0])];
    assert_eq!(assemble(&frames, SourceFormat::Gray, SampleEncoding::UInt8, 2), Ok(vec![0, 255]));
}

#[test]
fn single_frame_length_is_width_height_channels() {
    let gray = vec![frame(3, 2, 1, &[0.1; 6])];
    let r = assemble(&gray, SourceFormat::Gray, SampleEncoding::UInt8, 3 * 2 * 1).unwrap();
    assert_eq!(r.len(), 6);
    let rgb = vec![frame(3, 2, 3, &[0.1; 18])];
    let r = assemble(&rgb, SourceFormat::Rgb, SampleEncoding::UInt8, 3 * 2 * 4).unwrap();
    assert_eq!(r.len(), 24);
}

#[test]
fn rgb_gets_opaque_alpha_in_every_encoding() {
    let frames = vec![frame(2, 1, 3, &[1.0, 0.5, 0.0, 0.2, 0.4, 0.6])];
    let r8 = assemble(&frames, SourceFormat::Rgb, SampleEncoding::UInt8, 8).unwrap();
    assert_eq!(r8, vec![255, 128, 0, 255, 51, 102, 153, 255]);
    let r16 = assemble(&frames, SourceFormat::Rgb, SampleEncoding::UInt16Le, 16).unwrap();
    for p in 0..2 {
        assert_eq!(&r16[p * 8 + 6..p * 8 + 8], &[0xff, 0xff]);
    }
    let r32 = assemble(&frames, SourceFormat::Rgb, SampleEncoding::Float32Le, 32).unwrap();
    for p in 0..2 {
        assert_eq!(&r32[p * 16 + 12..p * 16 + 16], &1.0f32.to_le_bytes());
    }
}

#[test]
fn rgba_alpha_passes_through() {
    let frames = vec![frame(1, 1, 4, &[0.0, 0.0, 1.0, 0.5])];
    assert_eq!(
        assemble(&frames, SourceFormat::Rgba, SampleEncoding::UInt8, 4),
        Ok(vec![0, 0, 255, 128])
    );
}

#[test]
fn uniform_half_gray_gives_half_scale_words() {
    let frames = vec![frame(4, 4, 1, &[0.5; 16])];
    let r = assemble(&frames, SourceFormat::Gray, SampleEncoding::UInt16Le, 32).unwrap();
    for w in r.chunks(2) {
        let v = u16::from_le_bytes([w[0], w[1]]) as i32;
        assert!((v - 32768).abs() <= 1);
    }
}

#[test]
fn float_samples_stay_in_unit_interval() {
    let frames = vec![frame(2, 2, 1, &[-3.0, 0.3, 9.0, f32::NAN])];
    let r = assemble(&frames, SourceFormat::Gray, SampleEncoding::Float32Le, 16).unwrap();
    for w in r.chunks(4) {
        let v = f32::from_le_bytes([w[0], w[1], w[2], w[3]]);
        assert!((0.0..=1.0).contains(&v));
    }
    assert_eq!(&r[4..8], &0.3f32.to_le_bytes());
}

#[test]
fn frames_are_concatenated_in_order() {
    let frames = vec![frame(1, 1, 1, &[0.0]), frame(1, 1, 1, &[1.0])];
    assert_eq!(assemble(&frames, SourceFormat::Gray, SampleEncoding::UInt8, 2), Ok(vec![0, 255]));
}

#[test]
fn wrong_output_size_is_a_size_mismatch() {
    let frames = vec![frame(2, 1, 1, &[0.0, 1.0])];
    assert_eq!(
        assemble(&frames, SourceFormat::Gray, SampleEncoding::UInt8, 3),
        Err(DecodeError::SizeMismatch)
    );
    assert_eq!(
        assemble(&vec![], SourceFormat::Gray, SampleEncoding::UInt8, 1),
        Err(DecodeError::SizeMismatch)
    );
}

#[test]
fn unsupported_layout_fails() {
    let frames = vec![frame(1, 1, 2, &[0.0, 1.0])];
    assert_eq!(
        assemble(&frames, SourceFormat::Unsupported, SampleEncoding::UInt8, 2),
        Err(DecodeError::UnsupportedFormat)
    );
}

#[test]
fn misshapen_frame_is_a_render_failure() {
    let frames = vec![frame(1, 1, 1, &[0.0]), frame(1, 1, 3, &[0.0, 1.0, 0.5])];
    assert_eq!(
        assemble(&frames, SourceFormat::Gray, SampleEncoding::UInt8, 4),
        Err(DecodeError::RenderFailure)
    );
    let short = frame(2, 2, 1, &[0.0]);
    assert!(!fits(&short, SourceFormat::Gray));
    assert!(fits(&frame(1, 1, 3, &[0.0; 3]), SourceFormat::Rgb));
}

#[test]
fn push_frame_appends() {
    let mut out = vec![7u8];
    push_frame(&frame(1, 1, 3, &[0.0, 0.0, 0.0]), SourceFormat::Rgb, SampleEncoding::UInt8, &mut out);
    assert_eq!(out, vec![7, 0, 0, 0, 255]);
}
