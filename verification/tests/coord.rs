use distfield::coord::centered_twice;
use distfield::coord::centered_twice_mag;
use distfield::coord::mirror;

#[test]
fn centered_twice_concrete() {
    assert_eq!(centered_twice(0, 10), -9);
    assert_eq!(centered_twice(4, 10), -1);
    assert_eq!(centered_twice(5, 10), 1);
    assert_eq!(centered_twice(9, 10), 9);
    assert_eq!(centered_twice(0, 1), 0);
    assert_eq!(centered_twice(3, 7), 0);
}

#[test]
fn centered_twice_matches_pixel_centres() {
    // Half the doubled coordinate is the pixel centre i + 1/2 - n/2.
    for n in [1usize, 2, 3, 10, 640] {
        for i in 0..n {
            let c = 0.5 * (centered_twice(i, n) as f64);
            let reference = (i as f64) + 0.5 - 0.5 * (n as f64);
            assert_eq!(c, reference);
        }
    }
}

#[test]
fn centered_twice_mag_is_magnitude() {
    assert_eq!(centered_twice_mag(0, 10), 9);
    assert_eq!(centered_twice_mag(4, 10), 1);
    assert_eq!(centered_twice_mag(5, 10), 1);
    assert_eq!(centered_twice_mag(9, 10), 9);
    assert_eq!(centered_twice_mag(3, 7), 0);
    for n in [1usize, 2, 6, 11] {
        for i in 0..n {
            assert_eq!(centered_twice_mag(i, n) as i128, centered_twice(i, n).abs());
            assert_eq!(centered_twice_mag(i, n), centered_twice_mag(mirror(i, n), n));
        }
    }
}

#[test]
fn mirror_involution_concrete() {
    assert_eq!(mirror(0, 10), 9);
    assert_eq!(mirror(9, 10), 0);
    assert_eq!(mirror(mirror(3, 10), 10), 3);
    assert_eq!(mirror(0, 1), 0);
}

#[test]
fn mirror_negates_centered_concrete() {
    for n in [1usize, 4, 9, 10] {
        for i in 0..n {
            assert_eq!(centered_twice(mirror(i, n), n), -centered_twice(i, n));
        }
    }
}
