use chronos::disk_image::DiskImage;
use chronos::ScanError;

fn image(bytes: &[u8], path: &str) -> DiskImage {
    DiskImage::new(bytes.to_vec(), path.to_string())
}

#[test]
fn size_reports_total_length() {
    let img = image(&[1, 2, 3, 4, 5], "a.dd");
    assert_eq!(img.size(), 5);
}

#[test]
fn get_slice_returns_requested_range() {
    let img = image(&[10, 20, 30, 40, 50], "a.dd");
    assert_eq!(img.get_slice(1, 3).unwrap(), &[20, 30, 40]);
    assert_eq!(img.get_slice(0, 5).unwrap(), &[10, 20, 30, 40, 50]);
}

#[test]
fn get_slice_fails_exactly_past_the_end() {
    let img = image(&[0u8; 8], "a.dd");
    // a zero-length read at the very end succeeds
    assert!(img.get_slice(8, 0).is_ok());
    // one byte past the end fails, even with length zero
    assert_eq!(img.get_slice(9, 0), Err(ScanError::BoundsError));
    assert_eq!(img.get_slice(0, 9), Err(ScanError::BoundsError));
    assert_eq!(img.get_slice(7, 2), Err(ScanError::BoundsError));
    assert!(img.get_slice(7, 1).is_ok());
}

#[test]
fn get_slice_does_not_overflow_on_huge_requests() {
    let img = image(&[0u8; 4], "a.dd");
    assert_eq!(img.get_slice(usize::MAX, 2), Err(ScanError::BoundsError));
    assert_eq!(img.get_slice(2, usize::MAX), Err(ScanError::BoundsError));
}

#[test]
fn format_hints_are_case_insensitive_suffix_checks() {
    assert!(image(&[], "evidence.E01").is_e01_format());
    assert!(image(&[], "evidence.e01").is_e01_format());
    assert!(!image(&[], "evidence.e01").is_dd_format());
    assert!(image(&[], "evidence.dd").is_dd_format());
    assert!(image(&[], "evidence.DD").is_dd_format());
    assert!(!image(&[], "evidence.dd").is_e01_format());
    assert!(!image(&[], "evidence.e01.bak").is_e01_format());
    assert!(!image(&[], "e01").is_e01_format());
    assert!(!image(&[], "dd").is_dd_format());
    assert!(!image(&[], "").is_e01_format());
}
