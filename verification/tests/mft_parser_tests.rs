use chronos::disk_image::DiskImage;
use chronos::mft_parser::{
    extract_file_info, parse_attribute, parse_filename_attribute, parse_mft, parse_mft_entry,
    RetentionPolicy, MFT_ENTRY_SIZE,
};
use chronos::time_codec::{UtcInstant, FILETIME_UNIX_EPOCH_TICKS, TICKS_PER_SECOND};
use chronos::timeline::{EventType, Timeline};
use chronos::ScanError;

fn w16(buf: &mut [u8], off: usize, v: u16) {
    buf[off..off + 2].copy_from_slice(&v.to_le_bytes());
}

fn w32(buf: &mut [u8], off: usize, v: u32) {
    buf[off..off + 4].copy_from_slice(&v.to_le_bytes());
}

fn w64(buf: &mut [u8], off: usize, v: u64) {
    buf[off..off + 8].copy_from_slice(&v.to_le_bytes());
}

fn ticks_of_secs(secs: u64) -> u64 {
    FILETIME_UNIX_EPOCH_TICKS + secs * TICKS_PER_SECOND
}

/// The resident content of a file-naming attribute.
fn filename_content(name: &str, times: [u64; 4]) -> Vec<u8> {
    let units: Vec<u16> = name.encode_utf16().collect();
    let mut c = vec![0u8; 66 + 2 * units.len()];
    w64(&mut c, 0, 7); // parent directory
    w64(&mut c, 8, times[0]); // creation
    w64(&mut c, 16, times[1]); // access
    w64(&mut c, 24, times[2]); // write
    w64(&mut c, 32, times[3]); // entry change
    w64(&mut c, 40, 1234); // logical size
    w64(&mut c, 48, 4096); // allocated size
    w32(&mut c, 56, 0); // flags
    c[60] = units.len() as u8;
    for (i, u) in units.iter().enumerate() {
        w16(&mut c, 66 + 2 * i, *u);
    }
    c
}

/// One valid 1024-byte entry whose first attribute is a file-naming
/// attribute carrying `name` and the four timestamps.
fn valid_entry(name: &str, times: [u64; 4]) -> Vec<u8> {
    let mut block = vec![0u8; MFT_ENTRY_SIZE];
    block[0..4].copy_from_slice(b"FILE");
    w16(&mut block, 4, 1); // sequence number
    w16(&mut block, 6, 1); // link count
    w16(&mut block, 8, 64); // attribute offset
    w16(&mut block, 10, 1); // flags
    w32(&mut block, 12, 1024); // reported size
    w32(&mut block, 16, 1024); // allocated size
    w64(&mut block, 20, 42); // self reference
    w64(&mut block, 28, 0); // base record
    w16(&mut block, 36, 2); // next attribute id

    let content = filename_content(name, times);
    let attr = 64usize;
    w32(&mut block, attr, 0x30); // type: file-naming
    w32(&mut block, attr + 4, (24 + content.len()) as u32); // declared length
    block[attr + 8] = 0; // resident
    block[attr + 9] = 0; // name length
    w16(&mut block, attr + 10, 0); // name offset
    w16(&mut block, attr + 12, 0); // attribute flags
    w16(&mut block, attr + 14, 0); // attribute id
    w16(&mut block, attr + 16, 24); // content offset
    w16(&mut block, attr + 18, content.len() as u16); // content size
    block[attr + 24..attr + 24 + content.len()].copy_from_slice(&content);
    // the bytes after the attribute stay zero: the next decode sees a
    // zero-length attribute and the walk stops there
    block
}

fn image_of(blocks: &[Vec<u8>]) -> DiskImage {
    let mut data = Vec::new();
    for b in blocks {
        data.extend_from_slice(b);
    }
    DiskImage::new(data, "test.dd".to_string())
}

#[test]
fn attribute_shorter_than_fixed_header_is_truncated() {
    assert!(matches!(parse_attribute(&[0u8; 15]), Err(ScanError::TruncatedStructure)));
    // a resident attribute needs the content-offset pair too
    let mut a = vec![0u8; 18];
    a[8] = 0;
    assert!(matches!(parse_attribute(&a), Err(ScanError::TruncatedStructure)));
}

#[test]
fn resident_attribute_decodes_fields_and_content() {
    let mut a = vec![0u8; 30];
    w32(&mut a, 0, 0x30);
    w32(&mut a, 4, 30);
    a[8] = 0; // resident
    a[9] = 3;
    w16(&mut a, 10, 11);
    w16(&mut a, 12, 13);
    w16(&mut a, 14, 17);
    w16(&mut a, 16, 24); // content offset
    w16(&mut a, 18, 6); // content size
    a[24..30].copy_from_slice(&[9, 8, 7, 6, 5, 4]);
    let attr = parse_attribute(&a).unwrap();
    assert_eq!(attr.attribute_type, 0x30);
    assert_eq!(attr.attribute_length, 30);
    assert!(!attr.non_resident);
    assert_eq!(attr.name_length, 3);
    assert_eq!(attr.name_offset, 11);
    assert_eq!(attr.flags, 13);
    assert_eq!(attr.attribute_id, 17);
    assert_eq!(attr.content, vec![9, 8, 7, 6, 5, 4]);
}

#[test]
fn non_resident_attribute_has_empty_content() {
    let mut a = vec![0u8; 16];
    w32(&mut a, 0, 0x80);
    w32(&mut a, 4, 16);
    a[8] = 1; // non-resident: content explicitly not resolved
    let attr = parse_attribute(&a).unwrap();
    assert!(attr.non_resident);
    assert!(attr.content.is_empty());
}

#[test]
fn resident_content_region_past_the_data_is_truncated() {
    let mut a = vec![0u8; 24];
    w32(&mut a, 0, 0x30);
    w32(&mut a, 4, 24);
    a[8] = 0;
    w16(&mut a, 16, 20);
    w16(&mut a, 18, 100); // 20 + 100 > 24: the region does not fit
    assert!(matches!(parse_attribute(&a), Err(ScanError::TruncatedStructure)));
    // and a failed decode ends its entry's attribute walk: an entry whose
    // first attribute declares such a region yields no attributes at all
    let mut block = valid_entry("a.txt", [0; 4]);
    w16(&mut block, 64 + 18, 2000); // content size past the entry's end
    let img = image_of(&[block]);
    let e = parse_mft_entry(&img, 0).unwrap();
    assert!(e.attributes.is_empty());
    assert!(extract_file_info(&e).is_none());
}

#[test]
fn filename_attribute_shorter_than_fixed_fields_is_truncated() {
    let r = parse_filename_attribute(&[0u8; 65]);
    assert!(matches!(r, Err(ScanError::TruncatedStructure)));
}

#[test]
fn filename_length_past_content_end_is_truncated() {
    let mut c = filename_content("abc", [0; 4]);
    c[60] = 200; // declares far more characters than the content holds
    let r = parse_filename_attribute(&c);
    assert!(matches!(r, Err(ScanError::TruncatedStructure)));
}

#[test]
fn filename_attribute_decodes_name_and_timestamps() {
    let t = [
        ticks_of_secs(100),
        ticks_of_secs(200),
        ticks_of_secs(300),
        ticks_of_secs(400),
    ];
    let c = filename_content("notes.txt", t);
    let f = parse_filename_attribute(&c).unwrap();
    assert_eq!(f.filename, "notes.txt");
    assert_eq!(f.filename_length, 9);
    assert_eq!(f.creation_time, t[0]);
    assert_eq!(f.last_access_time, t[1]);
    assert_eq!(f.last_write_time, t[2]);
    assert_eq!(f.mft_change_time, t[3]);
    assert_eq!(f.parent_directory, 7);
    assert_eq!(f.file_size, 1234);
    assert_eq!(f.allocated_size, 4096);
}

#[test]
fn non_ascii_filename_decodes_from_utf16() {
    let c = filename_content("données.txt", [0; 4]);
    let f = parse_filename_attribute(&c).unwrap();
    assert_eq!(f.filename, "données.txt");
}

#[test]
fn entry_with_wrong_magic_is_a_signature_mismatch() {
    let mut block = valid_entry("a.txt", [0; 4]);
    block[0..4].copy_from_slice(b"BAAD");
    let img = image_of(&[block]);
    let r = parse_mft_entry(&img, 0);
    assert!(matches!(r, Err(ScanError::SignatureMismatch)));
}

#[test]
fn entry_past_the_image_end_is_a_bounds_error() {
    let img = image_of(&[valid_entry("a.txt", [0; 4])]);
    let r = parse_mft_entry(&img, 1);
    assert!(matches!(r, Err(ScanError::BoundsError)));
    let small = DiskImage::new(vec![0u8; 100], "small.dd".to_string());
    assert!(matches!(parse_mft_entry(&small, 0), Err(ScanError::BoundsError)));
}

#[test]
fn valid_entry_decodes_header_fields() {
    let img = image_of(&[valid_entry("a.txt", [0; 4])]);
    let e = parse_mft_entry(&img, 0).unwrap();
    assert_eq!(&e.signature, b"FILE");
    assert_eq!(e.sequence_number, 1);
    assert_eq!(e.attribute_offset, 64);
    assert_eq!(e.file_reference, 42);
    assert_eq!(e.next_attribute_id, 2);
}

#[test]
fn zero_length_attribute_terminates_the_attribute_walk() {
    // after the file-naming attribute the block is zeros: the next decode
    // yields a zero-length attribute and the walk stops with two entries
    let img = image_of(&[valid_entry("a.txt", [0; 4])]);
    let e = parse_mft_entry(&img, 0).unwrap();
    assert_eq!(e.attributes.len(), 2);
    assert_eq!(e.attributes[0].attribute_type, 0x30);
    assert_eq!(e.attributes[1].attribute_length, 0);

    // an entry whose very first attribute has length zero stops at once
    let mut block = valid_entry("a.txt", [0; 4]);
    w32(&mut block, 64 + 4, 0);
    let img2 = image_of(&[block]);
    let e2 = parse_mft_entry(&img2, 0).unwrap();
    assert_eq!(e2.attributes.len(), 1);
    assert_eq!(e2.attributes[0].attribute_length, 0);
}

#[test]
fn extract_file_info_finds_the_first_matching_attribute() {
    let t = [ticks_of_secs(1), ticks_of_secs(2), ticks_of_secs(3), ticks_of_secs(4)];
    let img = image_of(&[valid_entry("notes.txt", t)]);
    let e = parse_mft_entry(&img, 0).unwrap();
    let f = extract_file_info(&e).unwrap();
    assert_eq!(f.filename, "notes.txt");
}

#[test]
fn entry_without_file_naming_attribute_yields_no_fact() {
    let mut block = valid_entry("a.txt", [0; 4]);
    w32(&mut block, 64, 0x10); // a different attribute type
    let img = image_of(&[block]);
    let e = parse_mft_entry(&img, 0).unwrap();
    assert!(extract_file_info(&e).is_none());
}

#[test]
fn bad_signature_is_skipped_and_the_next_entry_is_found() {
    let t = [ticks_of_secs(10), ticks_of_secs(20), ticks_of_secs(30), ticks_of_secs(40)];
    let mut bad = valid_entry("skipped.txt", t);
    bad[0..4].copy_from_slice(b"XXXX");
    let good = valid_entry("found.txt", t);
    let img = image_of(&[bad, good]);
    let mut timeline = Timeline::new();
    let summary = parse_mft(&img, &mut timeline, 1000, RetentionPolicy::KeepAll);
    assert_eq!(summary.facts_extracted, 1);
    assert_eq!(summary.blocks_scanned, 2);
    assert!(!summary.stopped_early);
    assert_eq!(timeline.len(), 4);
    assert!(timeline.events[0].description.contains("found.txt"));
}

#[test]
fn end_to_end_single_entry_produces_four_sorted_events() {
    // four distinct timestamps; access is the earliest
    let t = [
        ticks_of_secs(4000),
        ticks_of_secs(1000),
        ticks_of_secs(3000),
        ticks_of_secs(2000),
    ];
    let img = image_of(&[valid_entry("notes.txt", t)]);
    let mut timeline = Timeline::new();
    let summary = parse_mft(&img, &mut timeline, 1000, RetentionPolicy::KeepAll);
    assert_eq!(summary.facts_extracted, 1);
    assert_eq!(summary.blocks_scanned, 1);
    assert!(!summary.stopped_early);
    assert_eq!(timeline.len(), 4);
    for e in &timeline.events {
        assert_eq!(e.source_artifact, "MFT");
    }
    timeline.sort();
    assert_eq!(timeline.events[0].timestamp.secs, 1000);
    assert_eq!(timeline.events[0].event_type, EventType::FileAccess);
    assert_eq!(timeline.events[0].description, "File 'notes.txt' was accessed.");
    assert_eq!(timeline.events[3].timestamp.secs, 4000);
    assert_eq!(timeline.events[3].event_type, EventType::FileCreation);
}

#[test]
fn cap_bounds_facts_not_blocks_and_reports_early_stop() {
    let t = [ticks_of_secs(1), ticks_of_secs(2), ticks_of_secs(3), ticks_of_secs(4)];
    let blocks: Vec<Vec<u8>> = (0..8).map(|_| valid_entry("f.txt", t)).collect();
    let img = image_of(&blocks);
    let mut timeline = Timeline::new();
    let summary = parse_mft(&img, &mut timeline, 3, RetentionPolicy::KeepAll);
    assert_eq!(summary.facts_extracted, 3);
    assert!(summary.stopped_early);
    assert_eq!(timeline.len(), 12);

    // with a cap above the total, every fact is extracted and the scan ends
    // normally
    let mut timeline2 = Timeline::new();
    let summary2 = parse_mft(&img, &mut timeline2, 1000, RetentionPolicy::KeepAll);
    assert_eq!(summary2.facts_extracted, 8);
    assert_eq!(summary2.blocks_scanned, 8);
    assert!(!summary2.stopped_early);
}

#[test]
fn retention_window_filters_old_events() {
    // keep only events newer than 900 seconds before the reference
    let policy = RetentionPolicy::RecentWindow {
        reference: UtcInstant { secs: 1000 },
        window_secs: 100,
    };
    let t = [
        ticks_of_secs(950), // retained
        ticks_of_secs(800), // too old
        ticks_of_secs(901), // retained
        ticks_of_secs(900), // exactly at the cutoff: not retained
    ];
    let img = image_of(&[valid_entry("w.txt", t)]);
    let mut timeline = Timeline::new();
    let summary = parse_mft(&img, &mut timeline, 1000, policy);
    assert_eq!(summary.facts_extracted, 1);
    assert_eq!(timeline.len(), 2);
    assert_eq!(timeline.events[0].event_type, EventType::FileCreation);
    assert_eq!(timeline.events[1].event_type, EventType::FileModification);
}

#[test]
fn image_smaller_than_one_entry_scans_nothing() {
    let img = DiskImage::new(vec![0u8; 500], "tiny.dd".to_string());
    let mut timeline = Timeline::new();
    let summary = parse_mft(&img, &mut timeline, 1000, RetentionPolicy::KeepAll);
    assert_eq!(summary.facts_extracted, 0);
    assert_eq!(summary.blocks_scanned, 0);
    assert!(!summary.stopped_early);
    assert!(timeline.is_empty());
}
