use improc_petrsu::BoolMatrix;

#[test]
fn constructor_false_test() {
    // Arrange & Act
    let matrix = BoolMatrix::new(3, 3, false);

    // Assert
    for y in 0..3 {
        for x in 0..3 {
            assert_eq!(false, matrix.check(x, y));
        }
    }
}

#[test]
fn constructor_true_test() {
    // Arrange & Act
    let matrix = BoolMatrix::new(3, 3, true);

    // Assert
    for y in 0..3 {
        for x in 0..3 {
            assert_eq!(true, matrix.check(x, y));
        }
    }
}

#[test]
fn check_true_test() {
    // Arrange
    let mut matrix = BoolMatrix::new(3, 3, false);
    matrix.set(1, 1);

    // Act & Assert
    assert_eq!(true, matrix.check(1, 1));
}

#[test]
fn check_false_test() {
    // Arrange
    let matrix = BoolMatrix::new(3, 3, false);

    // Act & Assert
    assert_eq!(false, matrix.check(1, 1));
}

#[test]
fn set_test() {
    // Arrange
    let mut matrix = BoolMatrix::new(3, 3, false);

    // Act
    matrix.set(1, 1);

    // Assert
    assert_eq!(true, matrix.check(1, 1));
}
