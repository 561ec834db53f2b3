use supersecret::StegError;
use supersecret::capacity::format_size;
use supersecret::capacity::magnitude_unit;
use supersecret::capacity::max_data_bytes;
use supersecret::capacity::plan_capacity;
use supersecret::capacity::size_hundredths;
use supersecret::capacity::size_magnitude;

#[test]
fn capacity_of_small_rgb_image() {
    // floor(10 * 10 * 3 / 8) == 37
    assert_eq!(max_data_bytes(10, 10, 3), 37);
    // floor(4 * 4 * 1 / 8) == 2
    assert_eq!(max_data_bytes(4, 4, 1), 2);
}

#[test]
fn capacity_boundary_exact_fit() {
    // Container size 28 + 9 == 37 fills the capacity exactly.
    assert_eq!(plan_capacity(28, 0, 37), Ok(()));
}

#[test]
fn capacity_boundary_one_byte_over() {
    assert_eq!(plan_capacity(29, 0, 37), Err(StegError::PayloadTooLarge { real_size: 28 }));
}

#[test]
fn capacity_boundary_with_extension() {
    assert_eq!(plan_capacity(25, 3, 37), Ok(()));
    assert_eq!(plan_capacity(26, 3, 37), Err(StegError::PayloadTooLarge { real_size: 25 }));
}

#[test]
fn capacity_nothing_fits() {
    // Even an empty payload needs nine bytes of framing.
    assert_eq!(plan_capacity(0, 0, 5), Err(StegError::PayloadTooLarge { real_size: 0 }));
}

#[test]
fn size_report_kib() {
    // 100 / 1024 == 0.097..., printed with two decimals.
    let s = format_size(100).unwrap();
    assert_eq!(s.as_str(), "0.10 KiB");
    let s = format_size(1536).unwrap();
    assert_eq!(s.as_str(), "1.50 KiB");
}

#[test]
fn size_report_larger_units() {
    let s = format_size(5 * 1024 * 1024).unwrap();
    assert_eq!(s.as_str(), "5.00 MiB");
    let s = format_size(3 * 1024 * 1024 * 1024).unwrap();
    assert_eq!(s.as_str(), "3.00 GiB");
    let s = format_size(2 * 1024 * 1024 * 1024 * 1024).unwrap();
    assert_eq!(s.as_str(), "2.00 TiB");
}

#[test]
fn size_report_out_of_range() {
    // Anything past the TiB bucket cannot be reported.
    assert_eq!(magnitude_unit(5), None);
    assert!(format_size(1125899906842624).is_none());
}

#[test]
fn size_scaling_rounds_to_even() {
    assert_eq!(size_magnitude(100), 1);
    // 100 * 100 / 1024 rounds up to 10 hundredths.
    assert_eq!(size_hundredths(100, 1), 10);
    // An exact value: 512 * 100 / 1024 == 50, no rounding.
    assert_eq!(size_hundredths(512, 1), 50);
    // Ties go to the even neighbour: 0.125 prints as 0.12, 0.375 as 0.38.
    assert_eq!(size_hundredths(128, 1), 12);
    assert_eq!(size_hundredths(384, 1), 38);
}
