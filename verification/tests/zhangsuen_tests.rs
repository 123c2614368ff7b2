use improc_petrsu::BinaryImage;
use improc_petrsu::PixelColor;
use improc_petrsu::Skeletonizer;
use improc_petrsu::ZhangSuenSkeletonizer;

#[test]
fn zhangsuen_algorithm_test() {
    // Arrange
    let mut image = BinaryImage::new(4, 4, PixelColor::White);
    image.fill(PixelColor::Black);
    let skeletonizer = ZhangSuenSkeletonizer::new();

    // Act
    skeletonizer.process(&mut image);

    // Assert
    let mut it = image.pixels_iter();
    while let Some((x, y)) = it.next() {
        if x == 1 && y == 1 {
            assert!(image.is_fg(x, y));
        } else {
            assert!(image.is_bg(x, y));
        }
    }
}

#[test]
fn count_transitions_borders_test() {
    // Arrange
    let mut image = BinaryImage::new(1, 1, PixelColor::White);
    image.set_fg(0, 0);

    // Act
    let count = ZhangSuenSkeletonizer::count_transitions(&image, 0, 0);

    // Assert
    assert_eq!(0, count);
}

#[test]
fn count_transitions_zero_black_test() {
    // Arrange
    let mut image = BinaryImage::new(3, 3, PixelColor::White);
    image.fill(PixelColor::Black);

    // Act
    let count = ZhangSuenSkeletonizer::count_transitions(&image, 1, 1);

    // Assert
    assert_eq!(0, count);
}

#[test]
fn count_transitions_zero_white_test() {
    // Arrange
    let mut image = BinaryImage::new(3, 3, PixelColor::White);
    image.set_fg(1, 1);

    // Act
    let count = ZhangSuenSkeletonizer::count_transitions(&image, 1, 1);

    // Assert
    assert_eq!(0, count);
}

#[test]
fn count_transitions_one_test() {
    // Arrange
    let mut image = BinaryImage::new(3, 3, PixelColor::White);
    image.fill(PixelColor::Black);
    image.set_bg(0, 0);

    // Act
    let count = ZhangSuenSkeletonizer::count_transitions(&image, 1, 1);

    // Assert
    assert_eq!(1, count);
}

#[test]
fn count_transitions_four_test() {
    // Arrange
    let mut image = BinaryImage::new(3, 3, PixelColor::White);
    image.fill(PixelColor::Black);
    image.set_bg(0, 0);
    image.set_bg(2, 0);
    image.set_bg(0, 2);
    image.set_bg(2, 2);

    // Act
    let count = ZhangSuenSkeletonizer::count_transitions(&image, 1, 1);

    // Assert
    assert_eq!(4, count);
}

#[test]
fn count_black_neighbours_test() {
    // Arrange
    let mut image = BinaryImage::new(3, 3, PixelColor::White);
    image.set_fg(0, 0);
    image.set_fg(2, 0);
    image.set_fg(0, 2);
    image.set_fg(2, 1);

    // Act
    let count = ZhangSuenSkeletonizer::count_black_neighbours(&image, 1, 1);

    // Assert
    assert_eq!(4, count);
}

#[test]
fn zhangsuen_idempotent_test() {
    let mut image = BinaryImage::new(6, 5, PixelColor::White);
    for x in 0..6 {
        for y in 0..4 {
            image.set_fg(x, y);
        }
    }
    image.set_fg(2, 4);
    let skeletonizer = ZhangSuenSkeletonizer::new();
    skeletonizer.process(&mut image);

    let mut first: Vec<bool> = Vec::new();
    let mut it = image.pixels_iter();
    while let Some((x, y)) = it.next() {
        first.push(image.is_fg(x, y));
    }

    skeletonizer.process(&mut image);

    let mut second: Vec<bool> = Vec::new();
    let mut it2 = image.pixels_iter();
    while let Some((x, y)) = it2.next() {
        second.push(image.is_fg(x, y));
    }

    assert_eq!(first, second);
}
