use memflow_reclass::reclass::{
    pack_path, path_from_str, EnumerateProcessData, EnumerateRemoteModuleData,
    EnumerateRemoteSectionData, MAX_PATH, MODULE_RECORD_SIZE, PROCESS_RECORD_SIZE,
    SECTION_RECORD_SIZE,
};

#[test]
fn process_name_of_300_characters_is_truncated() {
    let name: String = (0..300).map(|i| (b'a' + (i % 26) as u8) as char).collect();
    let rec = EnumerateProcessData::new(1234, &name, "C:\\x.exe");
    let units: Vec<u16> = name.encode_utf16().collect();
    assert_eq!(&rec.name[..], &units[..MAX_PATH]);
    assert_ne!(rec.name[MAX_PATH - 1], 0);
    assert_eq!(rec.pid, 1234);
}

#[test]
fn short_text_is_zero_padded() {
    let buf = path_from_str("ab");
    assert_eq!(buf[0], 'a' as u16);
    assert_eq!(buf[1], 'b' as u16);
    assert!(buf[2..].iter().all(|u| *u == 0));
}

#[test]
fn non_ascii_text_is_encoded_as_utf16() {
    let buf = path_from_str("é😀");
    assert_eq!(buf[0], 0x00E9);
    assert_eq!(buf[1], 0xD83D);
    assert_eq!(buf[2], 0xDE00);
    assert_eq!(buf[3], 0);
}

#[test]
fn surrogate_pair_may_be_cut_at_capacity() {
    let text: String = std::iter::repeat('a').take(MAX_PATH - 1).chain(std::iter::once('😀')).collect();
    let buf = path_from_str(&text);
    assert_eq!(buf[MAX_PATH - 2], 'a' as u16);
    assert_eq!(buf[MAX_PATH - 1], 0xD83D);
}

#[test]
fn pack_path_keeps_at_most_capacity_units() {
    let units: Vec<u16> = (1..=300).collect();
    let buf = pack_path(&units);
    assert_eq!(&buf[..], &units[..MAX_PATH]);
    let short: Vec<u16> = vec![7, 8];
    let buf = pack_path(&short);
    assert_eq!(&buf[..2], &[7, 8]);
    assert!(buf[2..].iter().all(|u| *u == 0));
}

#[test]
fn process_record_layout() {
    let rec = EnumerateProcessData::new(0x0102, "n", "p");
    let bytes = rec.to_bytes();
    assert_eq!(bytes.len(), PROCESS_RECORD_SIZE);
    assert_eq!(bytes.len(), 0x418);
    assert_eq!(&bytes[..8], &[0x02, 0x01, 0, 0, 0, 0, 0, 0]);
    assert_eq!(&bytes[8..10], &[b'n', 0]);
    assert!(bytes[10..528].iter().all(|b| *b == 0));
    assert_eq!(&bytes[528..530], &[b'p', 0]);
    assert!(bytes[530..].iter().all(|b| *b == 0));
}

#[test]
fn section_record_fields_and_layout() {
    let rec = EnumerateRemoteSectionData::new(0x1122_3344_5566_7788, 0x2000);
    assert_eq!(rec.ty, 0);
    assert_eq!(rec.category, 0);
    assert_eq!(rec.protection, 3);
    let bytes = rec.to_bytes();
    assert_eq!(bytes.len(), SECTION_RECORD_SIZE);
    assert_eq!(bytes.len(), 0x244);
    assert_eq!(&bytes[..8], &[0x88, 0x77, 0x66, 0x55, 0x44, 0x33, 0x22, 0x11]);
    assert_eq!(&bytes[8..16], &[0, 0x20, 0, 0, 0, 0, 0, 0]);
    assert_eq!(&bytes[16..28], &[0, 0, 0, 0, 0, 0, 0, 0, 3, 0, 0, 0]);
    assert!(bytes[28..].iter().all(|b| *b == 0));
}

#[test]
fn module_record_fields_and_layout() {
    let rec = EnumerateRemoteModuleData::new(0x7ff0_0000, 0x1000, "C:\\a.dll");
    assert_eq!(rec.base_address, 0x7ff0_0000);
    assert_eq!(rec.size, 0x1000);
    let bytes = rec.to_bytes();
    assert_eq!(bytes.len(), MODULE_RECORD_SIZE);
    assert_eq!(bytes.len(), 0x218);
    assert_eq!(&bytes[..8], &[0, 0, 0xf0, 0x7f, 0, 0, 0, 0]);
    assert_eq!(&bytes[8..16], &[0, 0x10, 0, 0, 0, 0, 0, 0]);
    assert_eq!(&bytes[16..18], &[b'C', 0]);
    assert_eq!(&bytes[18..20], &[b':', 0]);
}
