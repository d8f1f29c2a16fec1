use attractors::image::{fill_row, max_count, ppm_header, row_reported};

#[test]
fn ppm_header_text() {
    assert_eq!(ppm_header(4, 2), "P6\n4 2\n255\n");
    assert_eq!(ppm_header(15360, 8640), "P6\n15360 8640\n255\n");
}

#[test]
fn max_count_of_grids() {
    assert_eq!(max_count(&[]), 0);
    assert_eq!(max_count(&[0, 0]), 0);
    assert_eq!(max_count(&[3, 9, 2, u16::MAX, 1]), 65_535);
    assert_eq!(max_count(&[7]), 7);
}

#[test]
fn fill_row_takes_each_pixels_colour() {
    let colors = vec![[0u8, 0, 0], [10, 20, 30], [200, 100, 50]];
    let density = [0u16, 1, 2, 2, 1, 0];
    let mut row = vec![9u8; 9];
    fill_row(&mut row, &colors, &density, 1, 3);
    assert_eq!(row, vec![200, 100, 50, 10, 20, 30, 0, 0, 0]);
    let mut wide = vec![7u8; 7];
    fill_row(&mut wide, &colors, &density, 0, 2);
    assert_eq!(wide, vec![0, 0, 0, 10, 20, 30, 7]);
}

#[test]
fn row_reported_every_32nd_and_last() {
    assert!(row_reported(0, 100));
    assert!(!row_reported(1, 100));
    assert!(row_reported(32, 100));
    assert!(row_reported(99, 100));
    assert!(!row_reported(98, 100));
}
