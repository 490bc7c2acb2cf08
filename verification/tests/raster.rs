use distfield::coord::centered_twice;
use distfield::coord::mirror;
use distfield::raster::generate_symmetric;
use distfield::raster::generate_with;
use distfield::raster::Raster;

#[test]
fn buffer_len_matches_dimensions() {
    let raster = Raster::new(10, 10).unwrap();
    assert_eq!(raster.len(), 100);
    assert_eq!(raster.into_bytes().len(), 100);
    let raster = Raster::new(7, 3).unwrap();
    assert_eq!(raster.len(), 21);
}

#[test]
fn empty_raster() {
    assert_eq!(Raster::new(0, 0).unwrap().len(), 0);
    assert_eq!(Raster::new(5, 0).unwrap().len(), 0);
    assert_eq!(Raster::new(0, 7).unwrap().len(), 0);
}

#[test]
fn overflowing_dimensions_refused() {
    assert!(Raster::new(usize::MAX, 2).is_none());
    assert_eq!(Raster::new(usize::MAX, 0).unwrap().len(), 0);
}

#[test]
fn fresh_raster_is_all_zero() {
    let bytes = Raster::new(4, 3).unwrap().into_bytes();
    assert_eq!(bytes, vec![0u8; 12]);
}

#[test]
fn row_major_indexing() {
    let mut raster = Raster::new(4, 3).unwrap();
    raster.set(1, 2, 9);
    let bytes = raster.into_bytes();
    for (slot, byte) in bytes.iter().enumerate() {
        let expected: u8 = if slot == 2 * 4 + 1 { 9 } else { 0 };
        assert_eq!(*byte, expected);
    }
}

#[test]
fn generate_with_fills_row_major() {
    let raster = generate_with(4, 3, |i: usize, j: usize| (10 * j + i) as u8).unwrap();
    assert_eq!(raster.len(), 12);
    for j in 0..3 {
        for i in 0..4 {
            assert_eq!(raster.get(i, j), (10 * j + i) as u8);
        }
    }
    let bytes = raster.into_bytes();
    assert_eq!(bytes[2 * 4 + 1], 21);
}

#[test]
fn generate_with_refuses_overflow() {
    assert!(generate_with(usize::MAX, 2, |_i: usize, _j: usize| 0u8).is_none());
    assert_eq!(generate_with(0, 0, |_i: usize, _j: usize| 7u8).unwrap().len(), 0);
}

#[test]
fn generate_with_magnitude_callback_gives_flip_symmetric_mask() {
    // A shade that depends only on the magnitudes of the centred coordinates
    // yields a mask unchanged by horizontal and vertical flips.
    let width = 7;
    let height = 5;
    let raster = generate_with(width, height, |i: usize, j: usize| {
        let cx = centered_twice(i, width).unsigned_abs();
        let cy = centered_twice(j, height).unsigned_abs();
        (3 * cx + cy) as u8
    })
    .unwrap();
    for j in 0..height {
        for i in 0..width {
            assert_eq!(raster.get(i, j), raster.get(mirror(i, width), j));
            assert_eq!(raster.get(i, j), raster.get(i, mirror(j, height)));
        }
    }
}

#[test]
fn generate_symmetric_feeds_magnitudes() {
    // Axis of 3: magnitudes 2, 0, 2; axis of 2: magnitudes 1, 1.
    let raster = generate_symmetric(3, 2, |mx: usize, my: usize| (mx + 10 * my) as u8).unwrap();
    let bytes = raster.into_bytes();
    assert_eq!(bytes, vec![12, 10, 12, 12, 10, 12]);
}

#[test]
fn generate_symmetric_mask_is_flip_symmetric() {
    let width = 8;
    let height = 5;
    let raster =
        generate_symmetric(width, height, |mx: usize, my: usize| (7 * mx + my) as u8).unwrap();
    for j in 0..height {
        for i in 0..width {
            assert_eq!(raster.get(i, j), raster.get(mirror(i, width), j));
            assert_eq!(raster.get(i, j), raster.get(i, mirror(j, height)));
        }
    }
}

#[test]
fn generate_symmetric_refuses_overflow() {
    assert!(generate_symmetric(usize::MAX, 2, |_mx: usize, _my: usize| 0u8).is_none());
    assert_eq!(generate_symmetric(9, 0, |_mx: usize, _my: usize| 4u8).unwrap().len(), 0);
}

#[test]
fn set_then_get() {
    let mut raster = Raster::new(6, 2).unwrap();
    assert_eq!(raster.get(3, 1), 0);
    raster.set(3, 1, 200);
    assert_eq!(raster.get(3, 1), 200);
    assert_eq!(raster.get(0, 0), 0);
    assert_eq!(raster.width(), 6);
    assert_eq!(raster.height(), 2);
}
