use improc_petrsu::AdjacencyMode;
use improc_petrsu::BinaryImage;
use improc_petrsu::PixelColor;
use improc_petrsu::skeletonizers::count_components;
use improc_petrsu::skeletonizers::get_around;
use improc_petrsu::skeletonizers::is_local_articulation_point;

#[test]
fn count_components_three_modefour_test() {
    // Arrange
    let mut image = BinaryImage::new(3, 3, PixelColor::White);
    image.set_fg(0, 0);
    image.set_fg(1, 1);
    image.set_fg(2, 2);

    // Act
    let count = count_components(&image, AdjacencyMode::Four);

    // Assert
    assert_eq!(3, count);
}

#[test]
fn count_components_one_modeeight_test() {
    // Arrange
    let mut image = BinaryImage::new(3, 3, PixelColor::White);
    image.set_fg(0, 0);
    image.set_fg(1, 1);
    image.set_fg(2, 2);

    // Act
    let count = count_components(&image, AdjacencyMode::Eight);

    // Assert
    assert_eq!(1, count);
}

#[test]
fn count_components_four_modeeight_test() {
    // Arrange
    let mut image = BinaryImage::new(3, 3, PixelColor::White);
    image.set_fg(0, 0);
    image.set_fg(2, 2);
    image.set_fg(2, 0);
    image.set_fg(0, 2);

    // Act
    let count = count_components(&image, AdjacencyMode::Eight);

    // Assert
    assert_eq!(4, count);
}

#[test]
fn get_around_borders_test() {
    // Arrange
    let mut image = BinaryImage::new(1, 1, PixelColor::Black);
    image.set_fg(0, 0);

    // Act
    let around = get_around(&image, 0, 0);

    // Assert
    let mut it = around.pixels_iter();
    while let Some((x, y)) = it.next() {
        if x == 1 && y == 1 {
            assert!(around.is_fg(x, y));
        } else {
            assert!(around.is_bg(x, y));
        }
    }
}

#[test]
fn get_around_test() {
    // Arrange
    let mut image = BinaryImage::new(5, 5, PixelColor::Black);
    image.set_fg(2, 2);
    image.set_fg(1, 2);
    image.set_fg(3, 3);
    image.set_fg(3, 4);

    // Act
    let around = get_around(&image, 2, 2);

    // Assert
    let mut it = around.pixels_iter();
    while let Some((x, y)) = it.next() {
        if x == 1 && y == 1 || x == 0 && y == 1 || x == 2 && y == 2 {
            assert!(around.is_fg(x, y));
        } else {
            assert!(around.is_bg(x, y));
        }
    }
}

#[test]
fn is_local_articulation_point_true_modefour_test() {
    // Arrange
    let mut image = BinaryImage::new(3, 3, PixelColor::Black);
    image.set_fg(1, 1);
    image.set_fg(2, 2);
    image.set_fg(2, 1);

    // Act & Assert
    assert_eq!(
        true,
        is_local_articulation_point(&image, 2, 1, AdjacencyMode::Four)
    );
}

#[test]
fn is_local_articulation_point_false_modefour_test() {
    // Arrange
    let mut image = BinaryImage::new(3, 3, PixelColor::Black);
    image.set_fg(1, 1);
    image.set_fg(2, 2);
    image.set_fg(2, 1);
    image.set_fg(1, 2);

    // Act & Assert
    assert_eq!(
        false,
        is_local_articulation_point(&image, 2, 1, AdjacencyMode::Four)
    );
}

#[test]
fn is_local_articulation_point_true_modeeight_test() {
    // Arrange
    let mut image = BinaryImage::new(4, 4, PixelColor::Black);
    image.set_fg(1, 1);
    image.set_fg(2, 2);
    image.set_fg(3, 3);

    // Act & Assert
    assert_eq!(
        true,
        is_local_articulation_point(&image, 2, 2, AdjacencyMode::Eight)
    );
}

#[test]
fn is_local_articulation_point_false_modeeight_test() {
    // Arrange
    let mut image = BinaryImage::new(4, 4, PixelColor::Black);
    image.set_fg(1, 1);
    image.set_fg(2, 2);
    image.set_fg(3, 3);
    image.set_fg(1, 2);
    image.set_fg(2, 3);

    // Act & Assert
    assert_eq!(
        false,
        is_local_articulation_point(&image, 2, 2, AdjacencyMode::Eight)
    );
}

#[test]
fn pixels_iter_order_test() {
    let image = BinaryImage::new(2, 2, PixelColor::White);
    let mut it = image.pixels_iter();
    assert_eq!(Some((0, 0)), it.next());
    assert_eq!(Some((1, 0)), it.next());
    assert_eq!(Some((0, 1)), it.next());
    assert_eq!(Some((1, 1)), it.next());
    assert_eq!(None, it.next());
}

#[test]
fn binary_image_colors_test() {
    let mut image = BinaryImage::new(2, 2, PixelColor::White);
    assert_eq!(PixelColor::White, image.get_bg_color());
    assert_eq!(PixelColor::Black, image.get_fg_color());
    assert_eq!(2, image.width());
    assert_eq!(2, image.height());
    assert!(image.is_bg(0, 0));
    image.set_fg(0, 0);
    assert!(image.is_fg(0, 0));
    image.set_bg(0, 0);
    assert!(image.is_bg(0, 0));
    image.fill(PixelColor::Black);
    assert!(image.is_fg(1, 1));
}
