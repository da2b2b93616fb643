//! End-to-end tests of the header decoder, the record decoder, and the
//! embedded-string codec, on concrete byte blocks.
use unins_log::header::Header;
use unins_log::record::{FileRec, UninstallRecTyp};
use unins_log::LogError;

const MAGIC_32: &str = "Inno Setup Uninstall Log (b)";
const MAGIC_64: &str = "Inno Setup Uninstall Log (b) 64-bit";

fn crc32(bytes: &[u8]) -> u32 {
    crc::Crc::<u32>::new(&crc::CRC_32_ISO_HDLC).checksum(bytes)
}

/// A 448-byte header block with a valid checksum.
fn header_block(id: &str, version: i32, num_recs: u32) -> Vec<u8> {
    let mut b = vec![0u8; 448];
    b[..id.len()].copy_from_slice(id.as_bytes());
    let app_id = b"{E1F2-My-App}";
    b[64..64 + app_id.len()].copy_from_slice(app_id);
    let app_name = b"My App";
    b[192..192 + app_name.len()].copy_from_slice(app_name);
    b[320..324].copy_from_slice(&version.to_le_bytes());
    b[324..328].copy_from_slice(&num_recs.to_le_bytes());
    b[328..332].copy_from_slice(&0x1234u32.to_le_bytes());
    b[332..336].copy_from_slice(&0x8000u32.to_le_bytes());
    let c = crc32(&b[..444]);
    b[444..448].copy_from_slice(&c.to_le_bytes());
    b
}

/// A record payload holding one sentinel-framed UTF-16 string, then
/// `tail` bytes, then the closing sentinel.
fn string_payload(s: &str, tail: &[u8]) -> Vec<u8> {
    let units: Vec<u16> = s.encode_utf16().collect();
    let size = (units.len() * 2) as i32;
    let mut d = vec![0xFEu8];
    d.extend_from_slice(&(-size).to_le_bytes());
    for u in &units {
        d.extend_from_slice(&u.to_le_bytes());
    }
    d.extend_from_slice(tail);
    d.push(0xFF);
    d
}

/// The serialized bytes of one record.
fn encode_rec(typ: u16, extra: u32, data: &[u8]) -> Vec<u8> {
    let mut b = typ.to_le_bytes().to_vec();
    b.extend_from_slice(&extra.to_le_bytes());
    b.extend_from_slice(&(data.len() as u32).to_le_bytes());
    b.extend_from_slice(data);
    b
}

fn string_rec(s: &str, tail: &[u8]) -> FileRec {
    FileRec { typ: UninstallRecTyp::DeleteFile, extra_data: 7, data: string_payload(s, tail) }
}

#[test]
fn header_valid_is_accepted() {
    let b = header_block(MAGIC_32, 1048, 3);
    let h = Header::decode(&b).ok().unwrap();
    assert_eq!(h.id, MAGIC_32);
    assert_eq!(h.app_id, "{E1F2-My-App}");
    assert_eq!(h.app_name, "My App");
    assert_eq!(h.version, 1048);
    assert_eq!(h.num_recs, 3);
    assert_eq!(h.end_offset, 0x1234);
    assert_eq!(h.flags, 0x8000);
    // Round trip: the stored checksum is the digest of the first 444 bytes.
    assert_eq!(h.crc, crc32(&b[..444]));
}

#[test]
fn header_accepts_64bit_magic() {
    let b = header_block(MAGIC_64, 48, 0);
    let h = Header::decode(&b).ok().unwrap();
    assert_eq!(h.id, MAGIC_64);
    assert_eq!(h.version, 48);
}

#[test]
fn header_sign_extends_negative_count() {
    // The count field is stored as a signed 32-bit integer and cast to
    // a machine word, so an all-ones field sign-extends to the maximum.
    let b = header_block(MAGIC_32, 1048, 0xFFFFFFFF);
    let h = Header::decode(&b).ok().unwrap();
    assert_eq!(h.num_recs, usize::MAX);
}

#[test]
fn header_rejects_version_1049() {
    let b = header_block(MAGIC_32, 1049, 0);
    assert_eq!(Header::decode(&b).err().unwrap(), LogError::UnsupportedVersion);
}

#[test]
fn header_rejects_unknown_id() {
    let b = header_block("Some Other Uninstall Log", 1048, 0);
    assert_eq!(Header::decode(&b).err().unwrap(), LogError::UnrecognizedMagic);
}

#[test]
fn header_rejects_checksum_mismatch() {
    let mut b = header_block(MAGIC_32, 1048, 0);
    b[200] ^= 0x55;
    assert_eq!(Header::decode(&b).err().unwrap(), LogError::ChecksumMismatch);
}

#[test]
fn header_rejects_short_block() {
    let b = vec![0u8; 200];
    assert_eq!(Header::decode(&b).err().unwrap(), LogError::IoError);
}

#[test]
fn header_rejects_invalid_utf8_field() {
    let mut b = header_block(MAGIC_32, 1048, 0);
    b[64] = 0xC3;
    b[65] = 0x28;
    let c = crc32(&b[..444]);
    b[444..448].copy_from_slice(&c.to_le_bytes());
    assert_eq!(Header::decode(&b).err().unwrap(), LogError::InvalidUtf8);
}

#[test]
fn record_decode_fields() {
    let b = encode_rec(0x82, 7, &[1, 2, 3]);
    let (rec, next) = FileRec::decode(&b, 0).ok().unwrap();
    assert_eq!(rec.typ, UninstallRecTyp::DeleteFile);
    assert_eq!(rec.extra_data, 7);
    assert_eq!(rec.data, vec![1, 2, 3]);
    assert_eq!(next, 13);
}

#[test]
fn record_stream_sequential() {
    let mut b = encode_rec(0x10, 0, &[]);
    b.extend_from_slice(&encode_rec(0x89, 42, &[5, 6]));
    let (first, next) = FileRec::decode(&b, 0).ok().unwrap();
    assert_eq!(first.typ, UninstallRecTyp::StartInstall);
    assert_eq!(next, 10);
    let (second, end) = FileRec::decode(&b, next).ok().unwrap();
    assert_eq!(second.typ, UninstallRecTyp::RegDeleteValue);
    assert_eq!(second.extra_data, 42);
    assert_eq!(second.data, vec![5, 6]);
    assert_eq!(end, b.len());
}

#[test]
fn record_reserialize_roundtrip() {
    let b = encode_rec(0x8A, 0xDEADBEEF, &[0xFE, 0, 1, 0xFF]);
    let (rec, next) = FileRec::decode(&b, 0).ok().unwrap();
    let again = encode_rec(rec.typ.tag(), rec.extra_data, &rec.data);
    assert_eq!(again, b[..next].to_vec());
}

#[test]
fn record_rejects_oversized_before_payload() {
    // Only the 10 fixed bytes are present: the ceiling check must fire
    // before the payload would be read.
    let mut b = 0x82u16.to_le_bytes().to_vec();
    b.extend_from_slice(&0u32.to_le_bytes());
    b.extend_from_slice(&0x8000001u32.to_le_bytes());
    assert_eq!(FileRec::decode(&b, 0).err().unwrap(), LogError::OversizedPayload);
}

#[test]
fn record_rejects_unknown_typ() {
    let b = encode_rec(0x05, 0, &[1]);
    assert_eq!(FileRec::decode(&b, 0).err().unwrap(), LogError::UnrecognizedRecordType);
}

#[test]
fn record_rejects_unknown_typ_before_other_fields() {
    // Only the two tag bytes are present: the tag check fires first.
    let b = vec![0x05u8, 0x00];
    assert_eq!(FileRec::decode(&b, 0).err().unwrap(), LogError::UnrecognizedRecordType);
}

#[test]
fn record_rejects_truncated_payload() {
    let mut b = encode_rec(0x82, 0, &[1, 2, 3, 4, 5]);
    b.truncate(12);
    assert_eq!(FileRec::decode(&b, 0).err().unwrap(), LogError::IoError);
}

#[test]
fn record_rejects_short_fixed_part() {
    let b = vec![0x82u8, 0, 1, 1];
    assert_eq!(FileRec::decode(&b, 0).err().unwrap(), LogError::IoError);
}

#[test]
fn get_string_decodes_path() {
    let rec = string_rec("C:\\OldApp\\bin", &[]);
    let (text, old_size) = rec.get_string().ok().unwrap();
    assert_eq!(text, "C:\\OldApp\\bin");
    assert_eq!(old_size, 26);
}

#[test]
fn get_string_rejects_missing_first_sentinel() {
    let mut d = string_payload("abc", &[]);
    d[0] = 0x00;
    let rec = FileRec { typ: UninstallRecTyp::Run, extra_data: 0, data: d };
    assert_eq!(rec.get_string().err().unwrap(), LogError::MalformedStringFraming);
}

#[test]
fn get_string_rejects_missing_last_sentinel() {
    let mut d = string_payload("abc", &[]);
    let last = d.len() - 1;
    d[last] = 0x00;
    let rec = FileRec { typ: UninstallRecTyp::Run, extra_data: 0, data: d };
    assert_eq!(rec.get_string().err().unwrap(), LogError::MalformedStringFraming);
}

#[test]
fn get_string_rejects_nonnegative_size() {
    let mut d = string_payload("abc", &[]);
    d[1..5].copy_from_slice(&6i32.to_le_bytes());
    let rec = FileRec { typ: UninstallRecTyp::Run, extra_data: 0, data: d };
    assert_eq!(rec.get_string().err().unwrap(), LogError::MalformedStringFraming);
}

#[test]
fn get_string_rejects_odd_size() {
    let mut d = vec![0xFEu8];
    d.extend_from_slice(&(-3i32).to_le_bytes());
    d.extend_from_slice(&[0x41, 0x00, 0x42]);
    d.push(0xFF);
    let rec = FileRec { typ: UninstallRecTyp::Run, extra_data: 0, data: d };
    assert_eq!(rec.get_string().err().unwrap(), LogError::MalformedStringFraming);
}

#[test]
fn get_string_rejects_segment_overrun() {
    let mut d = string_payload("abc", &[]);
    d[1..5].copy_from_slice(&(-100i32).to_le_bytes());
    let rec = FileRec { typ: UninstallRecTyp::Run, extra_data: 0, data: d };
    assert_eq!(rec.get_string().err().unwrap(), LogError::MalformedStringFraming);
}

#[test]
fn get_string_rejects_invalid_utf16() {
    // A lone high surrogate is not valid UTF-16.
    let mut d = vec![0xFEu8];
    d.extend_from_slice(&(-2i32).to_le_bytes());
    d.extend_from_slice(&0xD800u16.to_le_bytes());
    d.push(0xFF);
    let rec = FileRec { typ: UninstallRecTyp::Run, extra_data: 0, data: d };
    assert_eq!(rec.get_string().err().unwrap(), LogError::MalformedStringFraming);
}

#[test]
fn get_string_rejects_empty_payload() {
    let rec = FileRec { typ: UninstallRecTyp::Run, extra_data: 0, data: vec![] };
    assert_eq!(rec.get_string().err().unwrap(), LogError::IoError);
}

#[test]
fn rebase_replaces_prefix() {
    let mut rec = string_rec("C:\\OldApp\\bin", &[9, 8, 7]);
    rec.rebase("C:\\OldApp", "D:\\NewApp").unwrap();
    let (text, size) = rec.get_string().ok().unwrap();
    assert_eq!(text, "D:\\NewApp\\bin");
    assert_eq!(size, 26);
    // The new declared size is the negated UTF-16 byte count.
    assert_eq!(rec.data[1..5], (-26i32).to_le_bytes());
    // Every byte after the old segment reappears after the new one.
    assert_eq!(rec.data[5 + 26..], [9, 8, 7, 0xFF]);
    assert_eq!(rec.typ, UninstallRecTyp::DeleteFile);
    assert_eq!(rec.extra_data, 7);
}

#[test]
fn rebase_mismatch_keeps_bytes() {
    let mut rec = string_rec("C:\\OldApp\\bin", &[1, 2]);
    let before = rec.data.clone();
    rec.rebase("X:\\Elsewhere", "D:\\NewApp").unwrap();
    assert_eq!(rec.data, before);
}

#[test]
fn rebase_shorter_prefix_shrinks_payload() {
    let mut rec = string_rec("C:\\OldApp\\bin", &[0xAA, 0xBB]);
    let old_len = rec.data.len();
    // "C:\\OldApp" is 9 UTF-16 units, "E:\\N" is 4: delta is 2 * (4 - 9).
    rec.rebase("C:\\OldApp", "E:\\N").unwrap();
    assert_eq!(rec.data.len(), old_len - 10);
    let (text, _) = rec.get_string().ok().unwrap();
    assert_eq!(text, "E:\\N\\bin");
    assert_eq!(rec.data[rec.data.len() - 3..], [0xAA, 0xBB, 0xFF]);
}

#[test]
fn rebase_longer_prefix_grows_payload() {
    let mut rec = string_rec("C:\\OldApp\\bin", &[0xCC]);
    let old_len = rec.data.len();
    // The replacement is 15 UTF-16 units against 9: delta is 2 * (15 - 9).
    rec.rebase("C:\\OldApp", "D:\\Moved\\NewApp").unwrap();
    assert_eq!(rec.data.len(), old_len + 12);
    let (text, _) = rec.get_string().ok().unwrap();
    assert_eq!(text, "D:\\Moved\\NewApp\\bin");
    assert_eq!(rec.data[rec.data.len() - 2..], [0xCC, 0xFF]);
}

#[test]
fn rebase_malformed_leaves_data_unmodified() {
    let mut d = string_payload("C:\\OldApp\\bin", &[]);
    d[0] = 0x00;
    let before = d.clone();
    let mut rec = FileRec { typ: UninstallRecTyp::Run, extra_data: 3, data: d };
    assert_eq!(rec.rebase("C:\\OldApp", "D:\\NewApp").err().unwrap(),
        LogError::MalformedStringFraming);
    assert_eq!(rec.data, before);
    assert_eq!(rec.typ, UninstallRecTyp::Run);
    assert_eq!(rec.extra_data, 3);
}

#[test]
fn rebase_empty_from_prepends() {
    let mut rec = string_rec("AB", &[]);
    rec.rebase("", "Z").unwrap();
    let (text, _) = rec.get_string().ok().unwrap();
    assert_eq!(text, "ZAB");
}

#[test]
fn rebase_non_ascii_path() {
    let mut rec = string_rec("C:\\Früh\\bin", &[4]);
    rec.rebase("C:\\Früh", "D:\\Späß").unwrap();
    let (text, _) = rec.get_string().ok().unwrap();
    assert_eq!(text, "D:\\Späß\\bin");
    assert_eq!(rec.data[rec.data.len() - 2..], [4, 0xFF]);
}

#[test]
fn rebase_to_empty_string_writes_zero_size() {
    // Erasing the whole path leaves an empty segment whose size field
    // is zero; zero is not negative, so the segment no longer decodes.
    let mut rec = string_rec("A", &[]);
    rec.rebase("A", "").unwrap();
    assert_eq!(rec.data, vec![0xFE, 0, 0, 0, 0, 0xFF]);
    assert_eq!(rec.get_string().err().unwrap(), LogError::MalformedStringFraming);
}

#[test]
fn rectyp_tag_roundtrip() {
    let tags: Vec<u16> = vec![
        0x01, 0x10, 0x11, 0x20, 0x80, 0x81, 0x82, 0x83, 0x84, 0x85, 0x86, 0x87, 0x88, 0x89, 0x8A,
        0x8B, 0x8C,
    ];
    for t in tags {
        assert!(UninstallRecTyp::recognized(t));
        assert_eq!(UninstallRecTyp::from(t).tag(), t);
    }
    assert_eq!(UninstallRecTyp::from(0x10), UninstallRecTyp::StartInstall);
    assert_eq!(UninstallRecTyp::from(0x8C), UninstallRecTyp::MutexCheck);
}

#[test]
fn rectyp_rejects_unknown_tags() {
    assert!(!UninstallRecTyp::recognized(0x00));
    assert!(!UninstallRecTyp::recognized(0x02));
    assert!(!UninstallRecTyp::recognized(0x8D));
    assert!(!UninstallRecTyp::recognized(0xFFFF));
}
