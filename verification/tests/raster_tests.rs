use improc_petrsu::BinaryImage;
use improc_petrsu::BinaryImageConverter;
use improc_petrsu::PixelColor;
use improc_petrsu::RgbRaster;
use improc_petrsu::ThresholdBinaryImageConverter;

fn set_pixel(r: &mut RgbRaster, x: usize, y: usize, rgb: [u8; 3]) {
    r.set_channel(x, y, 0, rgb[0]);
    r.set_channel(x, y, 1, rgb[1]);
    r.set_channel(x, y, 2, rgb[2]);
}

#[test]
fn threshold_binarizer_test() {
    // one pixel entirely at or below the threshold, one above it
    let mut raster = RgbRaster::new(2, 1);
    set_pixel(&mut raster, 0, 0, [10, 20, 30]);
    set_pixel(&mut raster, 1, 0, [10, 200, 0]);

    let converter = ThresholdBinaryImageConverter::new(50);
    converter.convert_to_binary(&mut raster);

    for c in 0..3 {
        assert_eq!(0, raster.get_channel(0, 0, c));
        assert_eq!(255, raster.get_channel(1, 0, c));
    }
}

#[test]
fn threshold_binarizer_boundary_test() {
    // a channel exactly at the threshold still counts as low
    let mut raster = RgbRaster::new(2, 1);
    set_pixel(&mut raster, 0, 0, [50, 50, 50]);
    set_pixel(&mut raster, 1, 0, [51, 0, 0]);

    let converter = ThresholdBinaryImageConverter::new(50);
    converter.convert_to_binary(&mut raster);

    for c in 0..3 {
        assert_eq!(0, raster.get_channel(0, 0, c));
        assert_eq!(255, raster.get_channel(1, 0, c));
    }
}

#[test]
fn threshold_max_progress_test() {
    assert_eq!(4, ThresholdBinaryImageConverter::compute_max_progress(10, 4));
}

#[test]
fn raster_round_trip_test() {
    // a pure black-and-white raster survives the grid round trip unchanged
    let mut raster = RgbRaster::new(2, 2);
    set_pixel(&mut raster, 0, 0, [0, 0, 0]);
    set_pixel(&mut raster, 1, 0, [255, 255, 255]);
    set_pixel(&mut raster, 0, 1, [255, 255, 255]);
    set_pixel(&mut raster, 1, 1, [0, 0, 0]);

    let image = BinaryImage::from_image(&raster, PixelColor::White);
    assert!(image.is_fg(0, 0));
    assert!(image.is_bg(1, 0));
    assert!(image.is_bg(0, 1));
    assert!(image.is_fg(1, 1));

    let back = image.to_rgb_image();
    assert_eq!(raster.data(), back.data());
}

#[test]
fn from_image_any_channel_test() {
    // a pixel is background (white cell) when any channel is nonzero
    let mut raster = RgbRaster::new(3, 1);
    set_pixel(&mut raster, 0, 0, [0, 0, 0]);
    set_pixel(&mut raster, 1, 0, [0, 1, 0]);
    set_pixel(&mut raster, 2, 0, [7, 0, 200]);

    let image = BinaryImage::from_image(&raster, PixelColor::White);
    assert!(image.is_fg(0, 0));
    assert!(image.is_bg(1, 0));
    assert!(image.is_bg(2, 0));
}
