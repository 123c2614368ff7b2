use improc_petrsu::AdjacencyMode;
use improc_petrsu::BinaryImage;
use improc_petrsu::EberlySkeletonizer;
use improc_petrsu::PixelColor;
use improc_petrsu::RosenfeldSkeletonizer;
use improc_petrsu::Skeletonizer;
use improc_petrsu::ZhangSuenSkeletonizer;
use improc_petrsu::skeletonizers::count_components;
use improc_petrsu::skeletonizers::eberly_skeletonizer::EberlyInteriorAlgorithm;
use improc_petrsu::skeletonizers::eberly_skeletonizer::ThreeInteriorAlgorithm;
use improc_petrsu::skeletonizers::eberly_skeletonizer::TwoInteriorAlgorithm;

#[test]
fn eberly_constructor_test() {
    // Arrange & Act & Assert
    EberlySkeletonizer::new();
}

#[test]
fn eberly_algorithm_test() {
    // Arrange
    let mut image = BinaryImage::new(4, 4, PixelColor::White);
    image.fill(PixelColor::Black);
    let skeletonizer = EberlySkeletonizer::new();

    // Act
    skeletonizer.process(&mut image);

    // Assert
    let mut it = image.pixels_iter();
    while let Some((x, y)) = it.next() {
        if x == 2 && y == 2 {
            assert!(image.is_fg(x, y));
        } else {
            assert!(image.is_bg(x, y));
        }
    }
}

#[test]
fn three_interior_is_interior_true_test() {
    // Arrange
    let mut image = BinaryImage::new(3, 3, PixelColor::White);
    image.set_fg(1, 1);
    image.set_fg(1, 0);
    image.set_fg(0, 1);
    image.set_fg(2, 1);

    // Act
    let result = ThreeInteriorAlgorithm::is_interior(&image, 1, 1);

    // Assert
    assert_eq!(true, result);
}

#[test]
fn three_interior_is_interior_false_test() {
    // Arrange
    let mut image = BinaryImage::new(3, 3, PixelColor::White);
    image.set_fg(1, 1);
    image.set_fg(1, 0);
    image.set_fg(2, 1);

    // Act
    let result = ThreeInteriorAlgorithm::is_interior(&image, 1, 1);

    // Assert
    assert_eq!(false, result);
}

#[test]
fn two_interior_is_interior_true_test() {
    // Arrange
    let mut image = BinaryImage::new(3, 3, PixelColor::White);
    image.set_fg(1, 1);
    image.set_fg(1, 0);
    image.set_fg(0, 1);

    // Act
    let result = TwoInteriorAlgorithm::is_interior(&image, 1, 1);

    assert_eq!(true, result);
}

#[test]
fn two_interior_is_interior_false_test() {
    // Arrange
    let mut image = BinaryImage::new(3, 3, PixelColor::White);
    image.set_fg(1, 1);
    image.set_fg(1, 0);
    image.set_fg(1, 2);

    // Act
    let result = TwoInteriorAlgorithm::is_interior(&image, 1, 1);

    assert_eq!(false, result);
}

#[test]
fn eberly_idempotent_test() {
    let mut image = BinaryImage::new(5, 5, PixelColor::White);
    for x in 0..5 {
        for y in 0..4 {
            image.set_fg(x, y);
        }
    }
    let skeletonizer = EberlySkeletonizer::new();
    skeletonizer.process(&mut image);

    let mut first: Vec<bool> = Vec::new();
    let mut it = image.pixels_iter();
    while let Some((x, y)) = it.next() {
        first.push(image.is_fg(x, y));
    }

    skeletonizer.process(&mut image);

    let mut second: Vec<bool> = Vec::new();
    let mut it2 = image.pixels_iter();
    while let Some((x, y)) = it2.next() {
        second.push(image.is_fg(x, y));
    }

    assert_eq!(first, second);
}

fn two_blob_image() -> BinaryImage {
    let mut image = BinaryImage::new(7, 7, PixelColor::White);
    for x in 0..3 {
        for y in 0..3 {
            image.set_fg(x, y);
        }
    }
    image.set_fg(5, 5);
    image.set_fg(6, 5);
    image
}

#[test]
fn component_preservation_zhangsuen_test() {
    let mut image = two_blob_image();
    assert_eq!(2, count_components(&image, AdjacencyMode::Eight));
    ZhangSuenSkeletonizer::new().process(&mut image);
    assert_eq!(2, count_components(&image, AdjacencyMode::Eight));
}

#[test]
fn component_preservation_rosenfeld_test() {
    let mut image = two_blob_image();
    assert_eq!(2, count_components(&image, AdjacencyMode::Eight));
    RosenfeldSkeletonizer::new(AdjacencyMode::Eight).process(&mut image);
    assert_eq!(2, count_components(&image, AdjacencyMode::Eight));
}

#[test]
fn component_preservation_eberly_test() {
    let mut image = two_blob_image();
    assert_eq!(2, count_components(&image, AdjacencyMode::Eight));
    EberlySkeletonizer::new().process(&mut image);
    assert_eq!(2, count_components(&image, AdjacencyMode::Eight));
}
