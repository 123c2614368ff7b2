use improc_petrsu::AdjacencyMode;
use improc_petrsu::BinaryImage;
use improc_petrsu::PixelColor;
use improc_petrsu::RosenfeldSkeletonizer;
use improc_petrsu::Skeletonizer;

#[test]
fn rosenfeld_algorithm_eightmode_test() {
    // Arrange
    let mut image = BinaryImage::new(4, 4, PixelColor::White);
    image.fill(PixelColor::Black);
    let skeletonizer = RosenfeldSkeletonizer::new(AdjacencyMode::Eight);

    // Act
    skeletonizer.process(&mut image);

    // Assert
    let mut it = image.pixels_iter();
    while let Some((x, y)) = it.next() {
        if (x == 2 || x == 1) && y == 2 {
            assert!(image.is_fg(x, y));
        } else {
            assert!(image.is_bg(x, y));
        }
    }
}

#[test]
fn rosenfeld_algorithm_fourmode_test() {
    // Arrange
    let mut image = BinaryImage::new(4, 4, PixelColor::White);
    image.fill(PixelColor::Black);
    let skeletonizer = RosenfeldSkeletonizer::new(AdjacencyMode::Four);

    // Act
    skeletonizer.process(&mut image);

    // Assert
    let mut it = image.pixels_iter();
    while let Some((x, y)) = it.next() {
        if (x == 2 || x == 1) && y == 2 {
            assert!(image.is_fg(x, y));
        } else {
            assert!(image.is_bg(x, y));
        }
    }
}

#[test]
fn rosenfeld_max_progress_test() {
    assert_eq!(5, RosenfeldSkeletonizer::compute_max_progress(10, 4));
    assert_eq!(3, RosenfeldSkeletonizer::compute_max_progress(2, 7));
}

#[test]
fn rosenfeld_idempotent_test() {
    let mut image = BinaryImage::new(6, 6, PixelColor::White);
    for x in 0..6 {
        for y in 1..5 {
            image.set_fg(x, y);
        }
    }
    let skeletonizer = RosenfeldSkeletonizer::new(AdjacencyMode::Eight);
    skeletonizer.process(&mut image);

    let mut first: Vec<bool> = Vec::new();
    let mut it = image.pixels_iter();
    while let Some((x, y)) = it.next() {
        first.push(image.is_fg(x, y));
    }

    skeletonizer.process(&mut image);

    let mut second: Vec<bool> = Vec::new();
    let mut it2 = image.pixels_iter();
    while let Some((x, y)) = it2.next() {
        second.push(image.is_fg(x, y));
    }

    assert_eq!(first, second);
}
