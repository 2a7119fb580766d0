use spectrum_cast::bins::{half_spectrum_len, interior_bins, interpolation_bins, loudest_bin};

#[test]
fn half_spectrum_of_standard_window() {
    assert_eq!(half_spectrum_len(1024), 513);
    assert_eq!(half_spectrum_len(2), 2);
    assert_eq!(half_spectrum_len(7), 4);
    assert_eq!(half_spectrum_len(0), 1);
}

#[test]
fn interpolation_reads_two_neighbours() {
    assert_eq!(interpolation_bins(2, 513), (2, 3));
    assert_eq!(interpolation_bins(0, 513), (0, 1));
    assert_eq!(interpolation_bins(511, 513), (511, 512));
}

#[test]
fn interpolation_is_clamped_at_the_end() {
    assert_eq!(interpolation_bins(512, 513), (512, 512));
    assert_eq!(interpolation_bins(9000, 513), (512, 512));
    assert_eq!(interpolation_bins(usize::MAX, 513), (512, 512));
    assert_eq!(interpolation_bins(0, 1), (0, 0));
}

#[test]
fn narrow_band_has_no_interior() {
    // Both edges fall into bin 2: nothing lies strictly between them.
    assert_eq!(interior_bins(2, 2, 513), None);
    assert_eq!(interior_bins(5, 4, 513), None);
}

#[test]
fn wide_band_has_interior_bins() {
    assert_eq!(interior_bins(2, 3, 513), Some((3, 3)));
    assert_eq!(interior_bins(100, 140, 513), Some((101, 140)));
}

#[test]
fn interior_is_cut_at_the_last_bin() {
    assert_eq!(interior_bins(500, 900, 513), Some((501, 512)));
    assert_eq!(interior_bins(511, 512, 513), Some((512, 512)));
    assert_eq!(interior_bins(512, 600, 513), None);
    assert_eq!(interior_bins(0, 5, 0), None);
    assert_eq!(interior_bins(usize::MAX, usize::MAX, 513), None);
}

#[test]
fn loudest_bin_is_the_greatest_key() {
    let keys: Vec<u32> = vec![3, 9, 4, 12, 12, 1];
    assert_eq!(loudest_bin(&keys, 0, 5), Some(3));
    assert_eq!(loudest_bin(&keys, 0, 2), Some(1));
    assert_eq!(loudest_bin(&keys, 4, 5), Some(4));
    assert_eq!(loudest_bin(&keys, 5, 5), Some(5));
}

#[test]
fn loudest_bin_refuses_a_bad_run() {
    let keys: Vec<u32> = vec![3, 9, 4];
    assert_eq!(loudest_bin(&keys, 2, 1), None);
    assert_eq!(loudest_bin(&keys, 0, 3), None);
    let none: Vec<u32> = Vec::new();
    assert_eq!(loudest_bin(&none, 0, 0), None);
}

#[test]
fn keys_of_magnitudes_find_the_peak() {
    // Bit patterns of non-negative floats order as the floats do.
    let magnitudes: Vec<f32> = vec![0.0, 0.25, 0.75, 0.5, 0.125];
    let keys: Vec<u32> = magnitudes.iter().map(|m| m.to_bits()).collect();
    let (first, last) = interior_bins(0, 4, magnitudes.len()).unwrap();
    assert_eq!((first, last), (1, 4));
    let peak = loudest_bin(&keys, first, last).unwrap();
    assert_eq!(peak, 2);
    assert_eq!(magnitudes[peak], 0.75);
}
