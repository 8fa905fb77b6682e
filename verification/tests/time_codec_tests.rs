use chronos::time_codec::{
    utc_to_windows_time, windows_time_to_utc, UtcInstant, FILETIME_UNIX_EPOCH_TICKS,
    TICKS_PER_SECOND,
};

#[test]
fn unix_epoch_decodes_to_zero_seconds() {
    let inst = windows_time_to_utc(FILETIME_UNIX_EPOCH_TICKS).unwrap();
    assert_eq!(inst.secs, 0);
}

#[test]
fn known_timestamp_decodes_exactly() {
    // 2024-01-15T10:30:00Z is 1705314600 seconds since the Unix epoch
    let ticks = FILETIME_UNIX_EPOCH_TICKS + 1705314600 * TICKS_PER_SECOND;
    let inst = windows_time_to_utc(ticks).unwrap();
    assert_eq!(inst.secs, 1705314600);
}

#[test]
fn division_truncates_toward_zero() {
    // one and a half seconds after the Unix epoch decodes to 1
    let after = FILETIME_UNIX_EPOCH_TICKS + 15_000_000;
    assert_eq!(windows_time_to_utc(after).unwrap().secs, 1);
    // one and a half seconds before the Unix epoch decodes to -1, not -2
    let before = FILETIME_UNIX_EPOCH_TICKS - 15_000_000;
    assert_eq!(windows_time_to_utc(before).unwrap().secs, -1);
}

#[test]
fn tick_origin_decodes_to_1601() {
    // 1601-01-01T00:00:00Z is -11644473600 seconds since the Unix epoch
    let inst = windows_time_to_utc(0).unwrap();
    assert_eq!(inst.secs, -11644473600);
}

#[test]
fn codec_round_trips_whole_seconds() {
    for secs in [0i64, 1, -1, 1705314600, -11644473600, 4102444800] {
        let ticks = utc_to_windows_time(&UtcInstant { secs }).unwrap();
        let back = windows_time_to_utc(ticks).unwrap();
        assert_eq!(back.secs, secs);
    }
}

#[test]
fn encoding_fails_before_tick_origin() {
    // an instant before 1601 has no tick encoding
    let r = utc_to_windows_time(&UtcInstant { secs: -12_000_000_000 });
    assert_eq!(r, Err(chronos::ScanError::ConversionError));
}

#[test]
fn decoding_is_monotonic_on_samples() {
    let samples = [
        0u64,
        1,
        FILETIME_UNIX_EPOCH_TICKS - 15_000_000,
        FILETIME_UNIX_EPOCH_TICKS,
        FILETIME_UNIX_EPOCH_TICKS + 1,
        FILETIME_UNIX_EPOCH_TICKS + 15_000_000,
        u64::MAX,
    ];
    let mut prev: Option<i64> = None;
    for t in samples {
        let secs = windows_time_to_utc(t).unwrap().secs;
        if let Some(p) = prev {
            assert!(p <= secs);
        }
        prev = Some(secs);
    }
}
