use basalt::atlas::AtlasState;
use basalt::decode::{apply_curve, decode_image, prepare_decoded, request_for, ChannelCurve, SniffedFormat};
use basalt::error::AtlasError;
use basalt::ids::Limits;
use basalt::keys::SubImageCacheID;
use basalt::page::{Data, DataType};
use basalt::sampler::SamplerDesc;
use std::io::Cursor;

fn inverting_curve() -> ChannelCurve {
    ChannelCurve::from_table((0..=255u8).map(|v| 255 - v).collect()).unwrap()
}

fn encoded(format: image::ImageFormat) -> Vec<u8> {
    let img = image::RgbImage::from_fn(3, 2, |x, y| image::Rgb([10 * x as u8, 20 * y as u8, 30]));
    let mut bytes = Vec::new();
    image::DynamicImage::ImageRgb8(img).write_to(&mut Cursor::new(&mut bytes), format).unwrap();
    bytes
}

#[test]
fn curve_needs_a_full_table() {
    assert!(ChannelCurve::from_table(vec![0u8; 255]).is_none());
    assert!(ChannelCurve::from_table(vec![0u8; 257]).is_none());
    assert!(ChannelCurve::from_table(vec![0u8; 256]).is_some());
}

#[test]
fn curve_maps_every_channel_value() {
    let mut px = vec![0u8, 1, 128, 255];
    apply_curve(&mut px, &inverting_curve());
    assert_eq!(px, vec![255, 254, 127, 0]);
}

#[test]
fn only_jpeg_pixels_take_the_curve() {
    let curve = inverting_curve();
    let j = prepare_decoded(SniffedFormat::Jpeg, 1, 1, vec![0, 10, 20, 255], &curve);
    assert_eq!((j.width, j.height), (1, 1));
    assert_eq!(j.pixels, vec![255, 245, 235, 0]);
    let o = prepare_decoded(SniffedFormat::Other, 1, 1, vec![0, 10, 20, 255], &curve);
    assert_eq!(o.pixels, vec![0, 10, 20, 255]);
}

#[test]
fn unknown_bytes_fail_the_format_guess() {
    match decode_image(&[1, 2, 3, 4, 5], &inverting_curve()) {
        Err(AtlasError::UnknownFormat(_)) => {}
        _ => panic!("expected an unknown format"),
    }
}

#[test]
fn truncated_jpeg_fails_to_decode() {
    match decode_image(&[0xFF, 0xD8, 0xFF, 0x00], &inverting_curve()) {
        Err(e @ AtlasError::Decode(_)) => assert!(e.message().starts_with("Failed to read image: ")),
        _ => panic!("expected a decode failure"),
    }
}

#[test]
fn png_decodes_to_rgba_unchanged() {
    let bytes = encoded(image::ImageFormat::Png);
    let img = decode_image(&bytes, &inverting_curve()).unwrap();
    assert_eq!((img.width, img.height), (3, 2));
    assert_eq!(img.pixels.len(), 3 * 2 * 4);
    assert_eq!(&img.pixels[0..4], &[0, 0, 30, 255]);
    assert_eq!(&img.pixels[4..8], &[10, 0, 30, 255]);
}

#[test]
fn jpeg_decodes_through_the_curve() {
    let bytes = encoded(image::ImageFormat::Jpeg);
    let plain = image::load_from_memory(&bytes).unwrap().to_rgba8().into_raw();
    let img = decode_image(&bytes, &inverting_curve()).unwrap();
    assert_eq!((img.width, img.height), (3, 2));
    let expected: Vec<u8> = plain.iter().map(|v| 255 - v).collect();
    assert_eq!(img.pixels, expected);
    // alpha 255 went through the curve too
    assert_eq!(img.pixels[3], 0);
}

#[test]
fn decoded_image_becomes_an_srgb_request() {
    let bytes = encoded(image::ImageFormat::Png);
    let img = decode_image(&bytes, &inverting_curve()).unwrap();
    let req = request_for(SubImageCacheID::Path("p.png".to_string()), img, SamplerDesc::default());
    assert_eq!(req.data_type, DataType::SRGBA);
    assert_eq!((req.width, req.height), (3, 2));
    assert!(matches!(&req.data, Data::D8(px) if px.len() == 24));
    let mut state = AtlasState::new(&Limits { max_image_dimension_2d: 1024, max_image_dimension_3d: 1024 });
    let id = state.place(req).unwrap();
    assert_eq!(state.cached_image_id(&SubImageCacheID::Path("p.png".to_string())), Some(id));
}
