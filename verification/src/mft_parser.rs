//! Decoding of fixed-layout file-table entries and their attributes out of
//! a raw disk image, and the stride scan that turns them into timeline
//! events.
//!
//! All header fields are fixed-width and little-endian. A malformed entry
//! or attribute never aborts the overall scan: the offending unit is
//! skipped and scanning resumes at the next fixed stride.

use vstd::prelude::*;
use vstd::bytes::{
    spec_u16_from_le_bytes, spec_u32_from_le_bytes, spec_u64_from_le_bytes, u16_from_le_bytes,
    u32_from_le_bytes, u64_from_le_bytes,
};
use vstd::slice::{slice_index_get, slice_subrange, slice_to_vec};
use crate::disk_image::DiskImage;
use crate::time_codec::{ticks_to_unix_secs, utc_secs_representable, windows_time_to_utc, UtcInstant};
use crate::timeline::{file_event_description, EventType, EventView, Timeline};
use crate::ScanError;

verus! {

/// The 4-byte magic ("FILE") that every valid entry starts with.
pub open spec fn mft_signature() -> Seq<u8> {
    seq![0x46u8, 0x49u8, 0x4cu8, 0x45u8]
}

/// The fixed size of one file-table entry block.
pub const MFT_ENTRY_SIZE: usize = 1024;

/// The attribute scan stops this many bytes before the entry's end, leaving
/// room for the end-of-list marker.
pub const ATTR_SCAN_END: usize = 1020;

/// The type code of the file-naming attribute.
pub const FILE_NAME_ATTR_TYPE: u32 = 0x30;

/// One self-describing sub-record inside an entry. Resident content is
/// sliced out of the entry; non-resident content is left empty (explicitly
/// not resolved).
pub struct MftAttribute {
    pub attribute_type: u32,
    pub attribute_length: u32,
    pub non_resident: bool,
    pub name_length: u8,
    pub name_offset: u16,
    pub flags: u16,
    pub attribute_id: u16,
    pub content: Vec<u8>,
}

/// The mathematical model of one attribute.
pub struct AttrView {
    pub attribute_type: u32,
    pub attribute_length: u32,
    pub non_resident: bool,
    pub name_length: u8,
    pub name_offset: u16,
    pub flags: u16,
    pub attribute_id: u16,
    pub content: Seq<u8>,
}

impl View for MftAttribute {
    type V = AttrView;

    open spec fn view(&self) -> AttrView {
        AttrView {
            attribute_type: self.attribute_type,
            attribute_length: self.attribute_length,
            non_resident: self.non_resident,
            name_length: self.name_length,
            name_offset: self.name_offset,
            flags: self.flags,
            attribute_id: self.attribute_id,
            content: self.content@,
        }
    }
}

/// The models of a sequence of attributes.
pub open spec fn views_of_attrs(s: Seq<MftAttribute>) -> Seq<AttrView> {
    Seq::new(s.len(), |i: int| s[i]@)
}

/// Decodes one attribute out of the bytes running from the attribute's
/// start to the end of its entry. Fails when a fixed-width field does not
/// fit or when a resident content region runs past the available bytes.
pub open spec fn spec_parse_attr(data: Seq<u8>) -> Option<AttrView> {
    if data.len() < 16 {
        None
    } else {
        let non_resident = data[8] != 0;
        if !non_resident && data.len() < 20 {
            None
        } else if !non_resident && spec_u16_from_le_bytes(data.subrange(16, 18))
            + spec_u16_from_le_bytes(data.subrange(18, 20)) > data.len() {
            None
        } else {
            let content = if non_resident {
                Seq::<u8>::empty()
            } else {
                let co = spec_u16_from_le_bytes(data.subrange(16, 18)) as int;
                let cs = spec_u16_from_le_bytes(data.subrange(18, 20)) as int;
                data.subrange(co, co + cs)
            };
            Some(
                AttrView {
                    attribute_type: spec_u32_from_le_bytes(data.subrange(0, 4)),
                    attribute_length: spec_u32_from_le_bytes(data.subrange(4, 8)),
                    non_resident,
                    name_length: data[9],
                    name_offset: spec_u16_from_le_bytes(data.subrange(10, 12)),
                    flags: spec_u16_from_le_bytes(data.subrange(12, 14)),
                    attribute_id: spec_u16_from_le_bytes(data.subrange(14, 16)),
                    content,
                },
            )
        }
    }
}

/// Decodes one attribute, given the bytes from its start to the end of its
/// entry.
pub fn parse_attribute(data: &[u8]) -> (r: Result<MftAttribute, ScanError>)
    ensures
        spec_parse_attr(data@) is Some <==> r is Ok,
        r matches Ok(a) ==> a@ == spec_parse_attr(data@)->Some_0,
        r matches Err(e) ==> e == ScanError::TruncatedStructure,
{
    if data.len() < 16 {
        return Err(ScanError::TruncatedStructure);
    }
    let attribute_type = u32_from_le_bytes(slice_subrange(data, 0, 4));
    let attribute_length = u32_from_le_bytes(slice_subrange(data, 4, 8));
    let non_resident = *slice_index_get(data, 8) != 0;
    let name_length = *slice_index_get(data, 9);
    let name_offset = u16_from_le_bytes(slice_subrange(data, 10, 12));
    let flags = u16_from_le_bytes(slice_subrange(data, 12, 14));
    let attribute_id = u16_from_le_bytes(slice_subrange(data, 14, 16));

    let content: Vec<u8> = if non_resident {
        // non-resident content is explicitly not resolved
        Vec::new()
    } else {
        if data.len() < 20 {
            return Err(ScanError::TruncatedStructure);
        }
        let content_offset = u16_from_le_bytes(slice_subrange(data, 16, 18)) as usize;
        let content_size = u16_from_le_bytes(slice_subrange(data, 18, 20)) as usize;
        if content_offset > data.len() || content_size > data.len() - content_offset {
            // the declared region runs past the attribute's bytes
            return Err(ScanError::TruncatedStructure);
        }
        slice_to_vec(slice_subrange(data, content_offset, content_offset + content_size))
    };

    let a = MftAttribute {
        attribute_type,
        attribute_length,
        non_resident,
        name_length,
        name_offset,
        flags,
        attribute_id,
        content,
    };
    proof {
        assert(a@.content =~= spec_parse_attr(data@)->Some_0.content);
    }
    Ok(a)
}

/// The ordered attribute list found by walking an entry block from `pos`:
/// decode one attribute, advance by its declared length, and stop when the
/// cursor would pass the end-of-list margin, the declared length is zero
/// (so the walk cannot loop forever), or decoding fails.
pub open spec fn spec_parse_attrs(block: Seq<u8>, pos: int) -> Seq<AttrView>
    decreases ATTR_SCAN_END - pos,
{
    if pos < 0 || pos >= ATTR_SCAN_END || block.len() != MFT_ENTRY_SIZE {
        Seq::empty()
    } else {
        match spec_parse_attr(block.subrange(pos, MFT_ENTRY_SIZE as int)) {
            Option::None => Seq::empty(),
            Option::Some(a) => {
                if a.attribute_length == 0 || pos + a.attribute_length >= ATTR_SCAN_END {
                    seq![a]
                } else {
                    seq![a] + spec_parse_attrs(block, pos + a.attribute_length)
                }
            },
        }
    }
}

/// One fixed-size file-table entry: the decoded header fields and the
/// ordered attribute list that follows them.
pub struct MftEntry {
    pub signature: [u8; 4],
    pub sequence_number: u16,
    pub link_count: u16,
    pub attribute_offset: u16,
    pub flags: u16,
    pub entry_size: u32,
    pub entry_allocated: u32,
    pub file_reference: u64,
    pub base_file_record: u64,
    pub next_attribute_id: u16,
    pub attributes: Vec<MftAttribute>,
}

/// The mathematical model of one entry.
pub struct EntryView {
    pub signature: Seq<u8>,
    pub sequence_number: u16,
    pub link_count: u16,
    pub attribute_offset: u16,
    pub flags: u16,
    pub entry_size: u32,
    pub entry_allocated: u32,
    pub file_reference: u64,
    pub base_file_record: u64,
    pub next_attribute_id: u16,
    pub attributes: Seq<AttrView>,
}

impl View for MftEntry {
    type V = EntryView;

    open spec fn view(&self) -> EntryView {
        EntryView {
            signature: self.signature@,
            sequence_number: self.sequence_number,
            link_count: self.link_count,
            attribute_offset: self.attribute_offset,
            flags: self.flags,
            entry_size: self.entry_size,
            entry_allocated: self.entry_allocated,
            file_reference: self.file_reference,
            base_file_record: self.base_file_record,
            next_attribute_id: self.next_attribute_id,
            attributes: views_of_attrs(self.attributes@),
        }
    }
}

/// Decodes one entry-sized block: rejects it unless it starts with the
/// expected magic, then reads the fixed-width header fields and walks the
/// attribute list from the header's declared attribute offset.
pub open spec fn spec_parse_entry(block: Seq<u8>) -> Option<EntryView> {
    if block.len() != MFT_ENTRY_SIZE {
        None
    } else if block.subrange(0, 4) != mft_signature() {
        None
    } else {
        let attribute_offset = spec_u16_from_le_bytes(block.subrange(8, 10));
        Some(
            EntryView {
                signature: block.subrange(0, 4),
                sequence_number: spec_u16_from_le_bytes(block.subrange(4, 6)),
                link_count: spec_u16_from_le_bytes(block.subrange(6, 8)),
                attribute_offset,
                flags: spec_u16_from_le_bytes(block.subrange(10, 12)),
                entry_size: spec_u32_from_le_bytes(block.subrange(12, 16)),
                entry_allocated: spec_u32_from_le_bytes(block.subrange(16, 20)),
                file_reference: spec_u64_from_le_bytes(block.subrange(20, 28)),
                base_file_record: spec_u64_from_le_bytes(block.subrange(28, 36)),
                next_attribute_id: spec_u16_from_le_bytes(block.subrange(36, 38)),
                attributes: spec_parse_attrs(block, attribute_offset as int),
            },
        )
    }
}

/// Decodes the entry-sized block at `offset`. Fails with a bounds error
/// when no full block fits there, and with a signature mismatch when the
/// block does not start with the expected magic.
pub fn parse_mft_entry(disk_image: &DiskImage, offset: usize) -> (r: Result<
    MftEntry,
    ScanError,
>)
    ensures
        r is Ok <==> (offset + MFT_ENTRY_SIZE <= disk_image@.len() && spec_parse_entry(
            disk_image@.subrange(offset as int, offset + MFT_ENTRY_SIZE),
        ) is Some),
        r matches Ok(entry) ==> entry@ == spec_parse_entry(
            disk_image@.subrange(offset as int, offset + MFT_ENTRY_SIZE),
        )->Some_0,
        r matches Err(e) ==> (if offset + MFT_ENTRY_SIZE > disk_image@.len() {
            e == ScanError::BoundsError
        } else {
            e == ScanError::SignatureMismatch
        }),
{
    let data: &[u8] = match disk_image.get_slice(offset, MFT_ENTRY_SIZE) {
        Ok(d) => d,
        Err(_) => {
            return Err(ScanError::BoundsError);
        },
    };
    let ghost block = data@;

    let s0 = *slice_index_get(data, 0);
    let s1 = *slice_index_get(data, 1);
    let s2 = *slice_index_get(data, 2);
    let s3 = *slice_index_get(data, 3);
    if !(s0 == 0x46 && s1 == 0x49 && s2 == 0x4c && s3 == 0x45) {
        proof {
            assert(block.subrange(0, 4) != mft_signature()) by {
                if block.subrange(0, 4) == mft_signature() {
                    assert(block.subrange(0, 4)[0] == 0x46u8);
                    assert(block.subrange(0, 4)[1] == 0x49u8);
                    assert(block.subrange(0, 4)[2] == 0x4cu8);
                    assert(block.subrange(0, 4)[3] == 0x45u8);
                }
            }
        }
        return Err(ScanError::SignatureMismatch);
    }
    proof {
        assert(block.subrange(0, 4) =~= mft_signature());
    }
    let signature: [u8; 4] = [s0, s1, s2, s3];

    let sequence_number = u16_from_le_bytes(slice_subrange(data, 4, 6));
    let link_count = u16_from_le_bytes(slice_subrange(data, 6, 8));
    let attribute_offset = u16_from_le_bytes(slice_subrange(data, 8, 10));
    let flags = u16_from_le_bytes(slice_subrange(data, 10, 12));
    let entry_size = u32_from_le_bytes(slice_subrange(data, 12, 16));
    let entry_allocated = u32_from_le_bytes(slice_subrange(data, 16, 20));
    let file_reference = u64_from_le_bytes(slice_subrange(data, 20, 28));
    let base_file_record = u64_from_le_bytes(slice_subrange(data, 28, 36));
    let next_attribute_id = u16_from_le_bytes(slice_subrange(data, 36, 38));

    let mut attributes: Vec<MftAttribute> = Vec::new();
    let mut attr_offset: usize = attribute_offset as usize;
    let ghost start = attr_offset as int;
    let mut done = false;
    proof {
        assert(views_of_attrs(attributes@) =~= Seq::<AttrView>::empty());
        assert(spec_parse_attrs(block, start) =~= views_of_attrs(attributes@) + spec_parse_attrs(
            block,
            attr_offset as int,
        ));
    }
    while !done
        invariant
            block.len() == MFT_ENTRY_SIZE,
            data@ == block,
            spec_parse_attrs(block, start) == views_of_attrs(attributes@) + (if done {
                Seq::<AttrView>::empty()
            } else {
                spec_parse_attrs(block, attr_offset as int)
            }),
        decreases (if done {
            0int
        } else {
            1int
        }), ATTR_SCAN_END - attr_offset,
    {
        if attr_offset >= ATTR_SCAN_END {
            done = true;
        } else {
            let rest = slice_subrange(data, attr_offset, MFT_ENTRY_SIZE);
            match parse_attribute(rest) {
                Ok(attr) => {
                    let ghost before = views_of_attrs(attributes@);
                    let ghost a = attr@;
                    let len = attr.attribute_length;
                    attributes.push(attr);
                    proof {
                        assert(views_of_attrs(attributes@) =~= before.push(a));
                        assert(before.push(a) =~= before + seq![a]);
                    }
                    if len == 0 {
                        done = true;
                        proof {
                            assert(spec_parse_attrs(block, attr_offset as int) =~= seq![a]);
                        }
                    } else if (len as usize) >= ATTR_SCAN_END - attr_offset {
                        done = true;
                        proof {
                            assert(attr_offset + len >= ATTR_SCAN_END);
                            assert(spec_parse_attrs(block, attr_offset as int) =~= seq![a]);
                        }
                    } else {
                        let ghost old_offset = attr_offset as int;
                        attr_offset = attr_offset + (len as usize);
                        proof {
                            assert(spec_parse_attrs(block, old_offset) =~= seq![a]
                                + spec_parse_attrs(block, attr_offset as int));
                        }
                    }
                },
                Err(_) => {
                    done = true;
                    proof {
                        assert(spec_parse_attrs(block, attr_offset as int) =~= Seq::<
                            AttrView,
                        >::empty());
                    }
                },
            }
        }
    }

    let entry = MftEntry {
        signature,
        sequence_number,
        link_count,
        attribute_offset,
        flags,
        entry_size,
        entry_allocated,
        file_reference,
        base_file_record,
        next_attribute_id,
        attributes,
    };
    proof {
        let parsed = spec_parse_entry(
            disk_image@.subrange(offset as int, offset + MFT_ENTRY_SIZE),
        )->Some_0;
        assert(entry@.signature =~= parsed.signature);
        assert(entry@.attributes =~= parsed.attributes);
    }
    Ok(entry)
}

/// What `String::from_utf16_lossy` decodes a sequence of UTF-16 code units
/// to. The result depends on the code units alone.
pub uninterp spec fn utf16_lossy(units: Seq<u16>) -> Seq<char>;

/// Relies on `String::from_utf16_lossy`: a permissive decode in which
/// invalid sequences are replaced, never fatal; the result is a pure
/// function of the code units.
#[verifier::external_body]
fn decode_utf16_lossy(units: &Vec<u16>) -> (r: String)
    ensures
        r@ == utf16_lossy(units@),
{
    String::from_utf16_lossy(units)
}

/// The fact decoded from one file-naming attribute: parent reference, four
/// native timestamps, sizes, flags, and the filename.
pub struct FileNameAttribute {
    pub parent_directory: u64,
    pub creation_time: u64,
    pub last_access_time: u64,
    pub last_write_time: u64,
    pub mft_change_time: u64,
    pub file_size: u64,
    pub allocated_size: u64,
    pub file_flags: u32,
    pub filename_length: u8,
    pub filename: String,
}

/// The mathematical model of one file-naming fact.
pub struct FileNameView {
    pub parent_directory: u64,
    pub creation_time: u64,
    pub last_access_time: u64,
    pub last_write_time: u64,
    pub mft_change_time: u64,
    pub file_size: u64,
    pub allocated_size: u64,
    pub file_flags: u32,
    pub filename_length: u8,
    pub filename: Seq<char>,
}

impl View for FileNameAttribute {
    type V = FileNameView;

    open spec fn view(&self) -> FileNameView {
        FileNameView {
            parent_directory: self.parent_directory,
            creation_time: self.creation_time,
            last_access_time: self.last_access_time,
            last_write_time: self.last_write_time,
            mft_change_time: self.mft_change_time,
            file_size: self.file_size,
            allocated_size: self.allocated_size,
            file_flags: self.file_flags,
            filename_length: self.filename_length,
            filename: self.filename@,
        }
    }
}

/// The byte offset of the filename characters within the attribute content.
pub const FILENAME_CHARS_OFFSET: usize = 66;

/// The filename's UTF-16 code units: `count` little-endian 2-byte units
/// starting at the fixed filename offset.
pub open spec fn spec_filename_units(data: Seq<u8>, count: int) -> Seq<u16> {
    Seq::new(
        count as nat,
        |i: int|
            spec_u16_from_le_bytes(
                data.subrange(
                    FILENAME_CHARS_OFFSET + 2 * i,
                    FILENAME_CHARS_OFFSET + 2 * i + 2,
                ),
            ),
    )
}

/// Decodes a file-naming attribute's resident content: fixed fields first,
/// then the filename, whose declared character count must fit within the
/// content.
pub open spec fn spec_parse_filename(data: Seq<u8>) -> Option<FileNameView> {
    if data.len() < 66 {
        None
    } else {
        let filename_length = data[60];
        if FILENAME_CHARS_OFFSET + 2 * filename_length > data.len() {
            None
        } else {
            Some(
                FileNameView {
                    parent_directory: spec_u64_from_le_bytes(data.subrange(0, 8)),
                    creation_time: spec_u64_from_le_bytes(data.subrange(8, 16)),
                    last_access_time: spec_u64_from_le_bytes(data.subrange(16, 24)),
                    last_write_time: spec_u64_from_le_bytes(data.subrange(24, 32)),
                    mft_change_time: spec_u64_from_le_bytes(data.subrange(32, 40)),
                    file_size: spec_u64_from_le_bytes(data.subrange(40, 48)),
                    allocated_size: spec_u64_from_le_bytes(data.subrange(48, 56)),
                    file_flags: spec_u32_from_le_bytes(data.subrange(56, 60)),
                    filename_length,
                    filename: utf16_lossy(spec_filename_units(data, filename_length as int)),
                },
            )
        }
    }
}

/// Decodes one file-naming attribute out of its resident content. Fails
/// when the content is shorter than the fixed-field size or the declared
/// filename would read past the content's end.
pub fn parse_filename_attribute(data: &[u8]) -> (r: Result<FileNameAttribute, ScanError>)
    ensures
        spec_parse_filename(data@) is Some <==> r is Ok,
        r matches Ok(f) ==> f@ == spec_parse_filename(data@)->Some_0,
        r matches Err(e) ==> e == ScanError::TruncatedStructure,
{
    if data.len() < 66 {
        return Err(ScanError::TruncatedStructure);
    }
    let parent_directory = u64_from_le_bytes(slice_subrange(data, 0, 8));
    let creation_time = u64_from_le_bytes(slice_subrange(data, 8, 16));
    let last_access_time = u64_from_le_bytes(slice_subrange(data, 16, 24));
    let last_write_time = u64_from_le_bytes(slice_subrange(data, 24, 32));
    let mft_change_time = u64_from_le_bytes(slice_subrange(data, 32, 40));
    let file_size = u64_from_le_bytes(slice_subrange(data, 40, 48));
    let allocated_size = u64_from_le_bytes(slice_subrange(data, 48, 56));
    let file_flags = u32_from_le_bytes(slice_subrange(data, 56, 60));
    let filename_length = *slice_index_get(data, 60);

    let char_count = filename_length as usize;
    if char_count * 2 > data.len() - FILENAME_CHARS_OFFSET {
        return Err(ScanError::TruncatedStructure);
    }

    let mut units: Vec<u16> = Vec::new();
    let mut i: usize = 0;
    while i < char_count
        invariant
            char_count <= 255,
            FILENAME_CHARS_OFFSET + 2 * char_count <= data@.len(),
            i <= char_count,
            units@ == spec_filename_units(data@, char_count as int).take(i as int),
        decreases char_count - i,
    {
        let lo = FILENAME_CHARS_OFFSET + 2 * i;
        let u = u16_from_le_bytes(slice_subrange(data, lo, lo + 2));
        units.push(u);
        i = i + 1;
        proof {
            assert(units@ =~= spec_filename_units(data@, char_count as int).take(i as int));
        }
    }
    proof {
        assert(units@ =~= spec_filename_units(data@, filename_length as int));
    }
    let filename = decode_utf16_lossy(&units);

    Ok(
        FileNameAttribute {
            parent_directory,
            creation_time,
            last_access_time,
            last_write_time,
            mft_change_time,
            file_size,
            allocated_size,
            file_flags,
            filename_length,
            filename,
        },
    )
}

/// The fact carried by the first file-naming attribute whose resident
/// content decodes; later matches are ignored.
pub open spec fn spec_first_filename_fact(attrs: Seq<AttrView>) -> Option<FileNameView>
    decreases attrs.len(),
{
    if attrs.len() == 0 {
        None
    } else {
        let a = attrs.first();
        if a.attribute_type == FILE_NAME_ATTR_TYPE && a.content.len() > 0 && spec_parse_filename(
            a.content,
        ) is Some {
            spec_parse_filename(a.content)
        } else {
            spec_first_filename_fact(attrs.drop_first())
        }
    }
}

/// Finds the entry's file-naming fact: the first attribute with the
/// file-naming type code and non-empty resident content that decodes. At
/// most one fact is produced per entry.
pub fn extract_file_info(entry: &MftEntry) -> (r: Option<FileNameAttribute>)
    ensures
        spec_first_filename_fact(entry@.attributes) is Some <==> r is Some,
        r matches Some(f) ==> f@ == spec_first_filename_fact(entry@.attributes)->Some_0,
{
    let ghost attrs = entry@.attributes;
    let n = entry.attributes.len();
    let mut i: usize = 0;
    proof {
        assert(attrs.skip(0) =~= attrs);
    }
    while i < n
        invariant
            n == entry.attributes@.len(),
            attrs == views_of_attrs(entry.attributes@),
            i <= n,
            spec_first_filename_fact(attrs) == spec_first_filename_fact(attrs.skip(i as int)),
        decreases n - i,
    {
        let attr = &entry.attributes[i];
        proof {
            assert(attrs.skip(i as int).first() == attr@);
            assert(attrs.skip(i as int).drop_first() =~= attrs.skip(i as int + 1));
        }
        if attr.attribute_type == FILE_NAME_ATTR_TYPE && attr.content.len() > 0 {
            match parse_filename_attribute(attr.content.as_slice()) {
                Ok(f) => {
                    return Some(f);
                },
                Err(_) => {},
            }
        }
        i = i + 1;
    }
    proof {
        assert(attrs.skip(n as int) =~= Seq::<AttrView>::empty());
    }
    None
}

/// The retention policy applied at the file-event append site. The
/// reference instant and window length are explicit parameters, never an
/// implicit reading of the current time.
#[derive(Clone, Copy, Debug, PartialEq, Eq, Structural)]
pub enum RetentionPolicy {
    /// Keep every decodable event.
    KeepAll,
    /// Keep only events within a trailing window, in seconds, measured back
    /// from the given reference instant.
    RecentWindow { reference: UtcInstant, window_secs: u64 },
}

/// Whether an event at `secs` seconds since the Unix epoch is retained.
pub open spec fn spec_retained(policy: RetentionPolicy, secs: int) -> bool {
    match policy {
        RetentionPolicy::KeepAll => true,
        RetentionPolicy::RecentWindow { reference, window_secs } => secs > reference.secs
            - window_secs,
    }
}

/// Whether an event at `inst` is retained under `policy`.
pub fn retained(policy: RetentionPolicy, inst: UtcInstant) -> (r: bool)
    ensures
        r == spec_retained(policy, inst.secs as int),
{
    match policy {
        RetentionPolicy::KeepAll => true,
        RetentionPolicy::RecentWindow { reference, window_secs } => (inst.secs as i128) > (
        reference.secs as i128) - (window_secs as i128),
    }
}

/// The timeline event a fact's timestamp field yields: none when the tick
/// count has no representable calendar time or the instant is not retained.
pub open spec fn spec_fact_event(
    fact: FileNameView,
    ticks: u64,
    event_type: EventType,
    policy: RetentionPolicy,
) -> Seq<EventView> {
    let secs = ticks_to_unix_secs(ticks);
    if utc_secs_representable(secs) && spec_retained(policy, secs) {
        seq![
            EventView {
                timestamp: secs,
                event_type: event_type,
                description: file_event_description(event_type, fact.filename),
                source_artifact: "MFT"@,
            },
        ]
    } else {
        Seq::empty()
    }
}

/// The events one file-naming fact yields, in field order: creation,
/// access, write, entry-change.
pub open spec fn spec_events_of_fact(fact: FileNameView, policy: RetentionPolicy) -> Seq<
    EventView,
> {
    spec_fact_event(fact, fact.creation_time, EventType::FileCreation, policy)
        + spec_fact_event(fact, fact.last_access_time, EventType::FileAccess, policy)
        + spec_fact_event(
        fact,
        fact.last_write_time,
        EventType::FileModification,
        policy,
    ) + spec_fact_event(
        fact,
        fact.mft_change_time,
        EventType::FileMftChange,
        policy,
    )
}

/// Appends the timeline events one fact yields. A timestamp whose
/// conversion fails is dropped on its own; the fact's other fields still
/// produce their events.
pub fn add_file_events_to_timeline(
    timeline: &mut Timeline,
    file_info: &FileNameAttribute,
    policy: RetentionPolicy,
)
    ensures
        final(timeline)@ == old(timeline)@ + spec_events_of_fact(file_info@, policy),
{
    let ghost base = timeline@;
    add_one_fact_event(
        timeline,
        file_info,
        file_info.creation_time,
        EventType::FileCreation,
        policy,
    );
    add_one_fact_event(
        timeline,
        file_info,
        file_info.last_access_time,
        EventType::FileAccess,
        policy,
    );
    add_one_fact_event(
        timeline,
        file_info,
        file_info.last_write_time,
        EventType::FileModification,
        policy,
    );
    add_one_fact_event(
        timeline,
        file_info,
        file_info.mft_change_time,
        EventType::FileMftChange,
        policy,
    );
    proof {
        assert(timeline@ =~= base + spec_events_of_fact(file_info@, policy));
    }
}

/// Appends the event for one timestamp field of a fact, if any.
fn add_one_fact_event(
    timeline: &mut Timeline,
    file_info: &FileNameAttribute,
    ticks: u64,
    event_type: EventType,
    policy: RetentionPolicy,
)
    ensures
        final(timeline)@ == old(timeline)@ + spec_fact_event(
            file_info@,
            ticks,
            event_type,
            policy,
        ),
{
    let ghost base = timeline@;
    match windows_time_to_utc(ticks) {
        Ok(inst) => {
            if retained(policy, inst) {
                timeline.add_file_event(inst, event_type, borrow_filename(file_info), "MFT");
                proof {
                    assert(timeline@ =~= base + spec_fact_event(
                        file_info@,
                        ticks,
                        event_type,
                        policy,
                    ));
                }
            } else {
                proof {
                    assert(timeline@ =~= base + spec_fact_event(
                        file_info@,
                        ticks,
                        event_type,
                        policy,
                    ));
                }
            }
        },
        Err(_) => {
            // the single timestamp is dropped, the fact's other fields keep
            // their events
            proof {
                assert(timeline@ =~= base + spec_fact_event(
                    file_info@,
                    ticks,
                    event_type,
                    policy,
                ));
            }
        },
    }
}

/// The fact's filename as a borrowed string.
fn borrow_filename(file_info: &FileNameAttribute) -> (r: &str)
    ensures
        r@ == file_info@.filename,
{
    file_info.filename.as_str()
}

/// What the scan reports: how many facts were extracted, how many blocks
/// were visited, and whether the fact cap ended the scan while blocks
/// remained.
#[derive(Clone, Copy, Debug, PartialEq, Eq, Structural)]
pub struct ScanSummary {
    pub facts_extracted: usize,
    pub blocks_scanned: usize,
    pub stopped_early: bool,
}

/// The mathematical model of a scan's outcome.
pub struct ScanView {
    pub events: Seq<EventView>,
    pub facts: nat,
    pub blocks: nat,
    pub stopped: bool,
}

/// The fact extracted from the entry-sized block at `off`, if the block
/// holds a valid entry with a decodable file-naming attribute.
pub open spec fn spec_fact_at(data: Seq<u8>, off: int) -> Option<FileNameView> {
    match spec_parse_entry(data.subrange(off, off + MFT_ENTRY_SIZE)) {
        Option::None => None,
        Option::Some(entry) => spec_first_filename_fact(entry.attributes),
    }
}

/// The scan from `off` with `budget` facts left under the cap: visit each
/// entry-sized block at the fixed stride, collect the events of each fact,
/// and stop early when the budget runs out with blocks still unvisited.
pub open spec fn spec_scan(data: Seq<u8>, policy: RetentionPolicy, off: int, budget: nat) -> ScanView
    decreases data.len() - off,
{
    if off < 0 || off + MFT_ENTRY_SIZE > data.len() {
        ScanView { events: Seq::empty(), facts: 0, blocks: 0, stopped: false }
    } else if budget == 0 {
        ScanView { events: Seq::empty(), facts: 0, blocks: 0, stopped: true }
    } else {
        match spec_fact_at(data, off) {
            Option::None => {
                let rest = spec_scan(data, policy, off + MFT_ENTRY_SIZE, budget);
                ScanView {
                    events: rest.events,
                    facts: rest.facts,
                    blocks: rest.blocks + 1,
                    stopped: rest.stopped,
                }
            },
            Option::Some(fact) => {
                let rest = spec_scan(data, policy, off + MFT_ENTRY_SIZE, (budget - 1) as nat);
                ScanView {
                    events: spec_events_of_fact(fact, policy) + rest.events,
                    facts: rest.facts + 1,
                    blocks: rest.blocks + 1,
                    stopped: rest.stopped,
                }
            },
        }
    }
}

/// Scans the image at the fixed entry-size stride from offset zero, for as
/// long as a full entry fits, appending each decoded fact's events to the
/// timeline. A malformed entry or attribute is skipped; the scan stops
/// early once `cap` facts have been extracted, and reports that as a normal
/// condition, not an error.
pub fn parse_mft(
    disk_image: &DiskImage,
    timeline: &mut Timeline,
    cap: usize,
    policy: RetentionPolicy,
) -> (summary: ScanSummary)
    ensures
        final(timeline)@ == old(timeline)@ + spec_scan(disk_image@, policy, 0, cap as nat).events,
        summary.facts_extracted == spec_scan(disk_image@, policy, 0, cap as nat).facts,
        summary.blocks_scanned == spec_scan(disk_image@, policy, 0, cap as nat).blocks,
        summary.stopped_early == spec_scan(disk_image@, policy, 0, cap as nat).stopped,
{
    let ghost data = disk_image@;
    let ghost base = timeline@;
    let ghost full = spec_scan(data, policy, 0, cap as nat);
    let size = disk_image.size();
    let nblocks = size / MFT_ENTRY_SIZE;
    proof {
        vstd::arithmetic::div_mod::lemma_fundamental_div_mod(size as int, MFT_ENTRY_SIZE as int);
        vstd::arithmetic::div_mod::lemma_div_pos_is_pos(size as int, MFT_ENTRY_SIZE as int);
    }
    let mut k: usize = 0;
    let mut facts: usize = 0;
    let ghost mut acc: Seq<EventView> = Seq::empty();
    proof {
        assert(timeline@ =~= base + acc);
        assert(full.events =~= acc + full.events);
    }
    while k < nblocks && facts < cap
        invariant
            data == disk_image@,
            size == data.len(),
            nblocks as int == size as int / MFT_ENTRY_SIZE as int,
            size as int == MFT_ENTRY_SIZE as int * (nblocks as int) + (size as int % (
            MFT_ENTRY_SIZE as int)),
            0 <= size as int % (MFT_ENTRY_SIZE as int),
            size as int % (MFT_ENTRY_SIZE as int) < MFT_ENTRY_SIZE as int,
            k <= nblocks,
            facts <= cap,
            full == spec_scan(data, policy, 0, cap as nat),
            timeline@ == base + acc,
            ({
                let rest = spec_scan(
                    data,
                    policy,
                    MFT_ENTRY_SIZE as int * (k as int),
                    (cap - facts) as nat,
                );
                &&& full.events == acc + rest.events
                &&& full.facts == facts + rest.facts
                &&& full.blocks == k + rest.blocks
                &&& full.stopped == rest.stopped
            }),
        decreases nblocks - k,
    {
        let ghost off = MFT_ENTRY_SIZE as int * (k as int);
        proof {
            vstd::arithmetic::mul::lemma_mul_inequality(
                k as int + 1,
                nblocks as int,
                MFT_ENTRY_SIZE as int,
            );
            vstd::arithmetic::mul::lemma_mul_is_commutative(k as int + 1, MFT_ENTRY_SIZE as int);
            vstd::arithmetic::mul::lemma_mul_is_distributive_add(
                MFT_ENTRY_SIZE as int,
                k as int,
                1,
            );
            assert(off + MFT_ENTRY_SIZE <= size);
            vstd::arithmetic::mul::lemma_mul_nonnegative(MFT_ENTRY_SIZE as int, k as int);
        }
        let offset = k * MFT_ENTRY_SIZE;
        let ghost rest_before = spec_scan(data, policy, off, (cap - facts) as nat);
        match parse_mft_entry(disk_image, offset) {
            Ok(entry) => {
                match extract_file_info(&entry) {
                    Some(file_info) => {
                        proof {
                            assert(spec_fact_at(data, off) == Some(file_info@));
                        }
                        add_file_events_to_timeline(timeline, &file_info, policy);
                        facts = facts + 1;
                        proof {
                            acc = acc + spec_events_of_fact(file_info@, policy);
                            assert(timeline@ =~= base + acc);
                            assert(full.events =~= acc + spec_scan(
                                data,
                                policy,
                                off + MFT_ENTRY_SIZE,
                                (cap - facts) as nat,
                            ).events);
                        }
                    },
                    None => {
                        proof {
                            assert(spec_fact_at(data, off) is None);
                        }
                    },
                }
            },
            Err(_) => {
                proof {
                    assert(spec_parse_entry(data.subrange(off, off + MFT_ENTRY_SIZE)) is None);
                    assert(spec_fact_at(data, off) is None);
                }
            },
        }
        k = k + 1;
        proof {
            assert(MFT_ENTRY_SIZE as int * (k as int) == off + MFT_ENTRY_SIZE) by {
                vstd::arithmetic::mul::lemma_mul_is_distributive_add(
                    MFT_ENTRY_SIZE as int,
                    k as int - 1,
                    1,
                );
            }
        }
    }
    proof {
        let rest = spec_scan(data, policy, MFT_ENTRY_SIZE as int * (k as int), (cap - facts) as nat);
        if k == nblocks {
            assert(MFT_ENTRY_SIZE as int * (k as int) + MFT_ENTRY_SIZE > size);
            assert(rest.facts == 0 && rest.blocks == 0 && !rest.stopped);
            assert(rest.events =~= Seq::<EventView>::empty());
        } else {
            assert(facts == cap);
            vstd::arithmetic::mul::lemma_mul_inequality(
                k as int + 1,
                nblocks as int,
                MFT_ENTRY_SIZE as int,
            );
            vstd::arithmetic::mul::lemma_mul_is_commutative(k as int + 1, MFT_ENTRY_SIZE as int);
            vstd::arithmetic::mul::lemma_mul_is_distributive_add(MFT_ENTRY_SIZE as int, k as int, 1);
            vstd::arithmetic::mul::lemma_mul_nonnegative(MFT_ENTRY_SIZE as int, k as int);
            assert(MFT_ENTRY_SIZE as int * (k as int) + MFT_ENTRY_SIZE <= size);
            assert(rest.stopped);
            assert(rest.facts == 0 && rest.blocks == 0);
            assert(rest.events =~= Seq::<EventView>::empty());
        }
        assert(full.events =~= acc);
        assert(timeline@ =~= base + full.events);
    }
    let stopped_early = k < nblocks;
    ScanSummary { facts_extracted: facts, blocks_scanned: k, stopped_early }
}

/// The number of facts the image holds from `off` on, one per valid entry
/// with a decodable file-naming attribute, with no cap applied.
pub open spec fn spec_total_facts(data: Seq<u8>, off: int) -> nat
    decreases data.len() - off,
{
    if off < 0 || off + MFT_ENTRY_SIZE > data.len() {
        0
    } else {
        (if spec_fact_at(data, off) is Some {
            1nat
        } else {
            0nat
        }) + spec_total_facts(data, off + MFT_ENTRY_SIZE)
    }
}

/// Law: the cap bounds the facts, not the blocks. A scan with `budget`
/// facts allowed extracts exactly the lesser of the budget and the image's
/// total fact count, and reports an early stop whenever facts beyond the
/// budget remain; an uninterrupted scan extracts every fact.
pub proof fn lemma_scan_cap(data: Seq<u8>, policy: RetentionPolicy, off: int, budget: nat)
    ensures
        spec_scan(data, policy, off, budget).facts == if budget <= spec_total_facts(data, off) {
            budget
        } else {
            spec_total_facts(data, off)
        },
        spec_total_facts(data, off) > budget ==> spec_scan(data, policy, off, budget).stopped,
        !spec_scan(data, policy, off, budget).stopped ==> spec_scan(data, policy, off, budget).facts
            == spec_total_facts(data, off),
    decreases data.len() - off,
{
    if off < 0 || off + MFT_ENTRY_SIZE > data.len() {
    } else if budget == 0 {
    } else {
        match spec_fact_at(data, off) {
            Option::None => {
                lemma_scan_cap(data, policy, off + MFT_ENTRY_SIZE, budget);
            },
            Option::Some(_) => {
                lemma_scan_cap(data, policy, off + MFT_ENTRY_SIZE, (budget - 1) as nat);
            },
        }
    }
}

/// Law: an entry block whose first 4 bytes differ from the expected magic
/// is skipped and does not stop the scan: the scan's facts and events from
/// that block on are exactly those found from the next stride.
pub proof fn lemma_signature_mismatch_skipped(
    data: Seq<u8>,
    policy: RetentionPolicy,
    off: int,
    budget: nat,
)
    requires
        0 <= off,
        off + MFT_ENTRY_SIZE <= data.len(),
        budget > 0,
        data.subrange(off, off + 4) != mft_signature(),
    ensures
        spec_scan(data, policy, off, budget).events == spec_scan(
            data,
            policy,
            off + MFT_ENTRY_SIZE,
            budget,
        ).events,
        spec_scan(data, policy, off, budget).facts == spec_scan(
            data,
            policy,
            off + MFT_ENTRY_SIZE,
            budget,
        ).facts,
        spec_scan(data, policy, off, budget).stopped == spec_scan(
            data,
            policy,
            off + MFT_ENTRY_SIZE,
            budget,
        ).stopped,
{
    let block = data.subrange(off, off + MFT_ENTRY_SIZE);
    assert(block.subrange(0, 4) =~= data.subrange(off, off + 4));
    assert(spec_parse_entry(block) is None);
    assert(spec_fact_at(data, off) is None);
}

/// Law: an attribute whose declared length is zero terminates its entry's
/// attribute scan at once: the walk yields that attribute and nothing after
/// it, so the scan cannot loop forever.
pub proof fn lemma_zero_length_attribute_ends_scan(block: Seq<u8>, pos: int)
    requires
        block.len() == MFT_ENTRY_SIZE,
        0 <= pos < ATTR_SCAN_END,
        spec_parse_attr(block.subrange(pos, MFT_ENTRY_SIZE as int)) is Some,
        spec_parse_attr(block.subrange(pos, MFT_ENTRY_SIZE as int))->Some_0.attribute_length == 0,
    ensures
        spec_parse_attrs(block, pos) == seq![
            spec_parse_attr(block.subrange(pos, MFT_ENTRY_SIZE as int))->Some_0,
        ],
{
}

} // verus!
