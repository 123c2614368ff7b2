use improc_petrsu::RgbRaster;
use improc_petrsu::SkeletonizeError;
use improc_petrsu::ZhangSuenSkeletonizer;
use improc_petrsu::skeletonize;
use improc_petrsu::skeletonize_raster;

#[test]
fn skeletonize_png_test() {
    // a 4x4 all-black PNG thins to the single skeleton pixel at (1, 1)
    let img = image::RgbImage::new(4, 4);
    let mut cursor = std::io::Cursor::new(Vec::new());
    image::DynamicImage::ImageRgb8(img)
        .write_to(&mut cursor, image::ImageFormat::Png)
        .unwrap();
    let input = cursor.into_inner();

    let out = skeletonize(&input, &ZhangSuenSkeletonizer::new()).unwrap();

    let decoded = image::load_from_memory(&out).unwrap().to_rgb8();
    assert_eq!(4, decoded.width());
    assert_eq!(4, decoded.height());
    for y in 0..4 {
        for x in 0..4 {
            let p = decoded.get_pixel(x, y);
            if x == 1 && y == 1 {
                assert_eq!([0, 0, 0], p.0);
            } else {
                assert_eq!([255, 255, 255], p.0);
            }
        }
    }
}

#[test]
fn skeletonize_decode_error_test() {
    let garbage = vec![1u8, 2, 3, 4, 5];
    let r = skeletonize(&garbage, &ZhangSuenSkeletonizer::new());
    assert!(matches!(r, Err(SkeletonizeError::Decode)));
}

#[test]
fn skeletonize_empty_raster_test() {
    let raster = RgbRaster::new(0, 0);
    let r = skeletonize_raster(&raster, &ZhangSuenSkeletonizer::new());
    assert!(matches!(r, Err(SkeletonizeError::EmptyImage)));
}

#[test]
fn skeletonize_raster_keeps_dimensions_test() {
    // binarize-thin-render on a plain raster: white stays white, the black
    // block shrinks to a thinner skeleton of black pixels
    let mut raster = RgbRaster::new(5, 4);
    for x in 0..5 {
        for y in 0..4 {
            let v: u8 = if y == 3 { 255 } else { 0 };
            raster.set_channel(x, y, 0, v);
            raster.set_channel(x, y, 1, v);
            raster.set_channel(x, y, 2, v);
        }
    }
    let out = skeletonize_raster(&raster, &ZhangSuenSkeletonizer::new()).unwrap();
    assert_eq!(5, out.width());
    assert_eq!(4, out.height());
    // the bottom row had ink in no channel, so it stays pure white
    for x in 0..5 {
        for c in 0..3 {
            assert_eq!(255, out.get_channel(x, 3, c));
        }
    }
    // some ink remains, and only where the input raster had ink
    let mut black = 0;
    for x in 0..5 {
        for y in 0..4 {
            if out.get_channel(x, y, 0) == 0 {
                assert!(y < 3);
                black += 1;
            }
        }
    }
    assert!(black > 0);
}
