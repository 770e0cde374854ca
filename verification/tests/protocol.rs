use confium::error::Error;
use confium::plugin::select_version;
use confium::protocol::decode_capabilities;

fn record(name: &[u8], version: u8) -> Vec<u8> {
    let mut r = name.to_vec();
    r.push(0);
    r.push(version);
    r.push(0);
    r
}

#[test]
fn decodes_one_record() {
    let mut advert = record(b"hash", 0);
    advert.push(0);
    let caps = decode_capabilities(&advert).unwrap();
    assert_eq!(caps.len(), 1);
    assert_eq!(caps[0].name, b"hash".to_vec());
    assert_eq!(caps[0].versions, vec![0]);
}

#[test]
fn repeated_names_accumulate_into_one_sorted_version_set() {
    // `hash` advertised at versions 2, 0, 1, in that order on the wire
    let mut advert = Vec::new();
    advert.extend(record(b"hash", 2));
    advert.extend(record(b"hash", 0));
    advert.extend(record(b"hash", 1));
    advert.push(0);
    let caps = decode_capabilities(&advert).unwrap();
    assert_eq!(caps.len(), 1);
    assert_eq!(caps[0].name, b"hash".to_vec());
    assert_eq!(caps[0].versions, vec![0, 1, 2]);
}

#[test]
fn binding_selects_the_highest_mutually_supported_version() {
    // `hash` at versions [2, 0, 1]; a host that supports only 0 and 1
    // settles on 1
    let mut advert = Vec::new();
    advert.extend(record(b"hash", 2));
    advert.extend(record(b"hash", 0));
    advert.extend(record(b"hash", 1));
    advert.push(0);
    let caps = decode_capabilities(&advert).unwrap();
    let selected = select_version(&caps[0].versions, &vec![0, 1]);
    assert_eq!(selected, Some(1));
}

#[test]
fn selection_is_empty_without_a_common_version() {
    assert_eq!(select_version(&vec![2, 3], &vec![0, 1]), None);
    assert_eq!(select_version(&vec![], &vec![0]), None);
}

#[test]
fn duplicate_versions_collapse() {
    let mut advert = Vec::new();
    advert.extend(record(b"hash", 1));
    advert.extend(record(b"hash", 1));
    advert.push(0);
    let caps = decode_capabilities(&advert).unwrap();
    assert_eq!(caps[0].versions, vec![1]);
}

#[test]
fn several_capabilities_keep_their_own_versions() {
    let mut advert = Vec::new();
    advert.extend(record(b"mac", 3));
    advert.extend(record(b"hash", 0));
    advert.extend(record(b"mac", 1));
    advert.push(0);
    let caps = decode_capabilities(&advert).unwrap();
    assert_eq!(caps.len(), 2);
    assert_eq!(caps[0].name, b"mac".to_vec());
    assert_eq!(caps[0].versions, vec![1, 3]);
    assert_eq!(caps[1].name, b"hash".to_vec());
    assert_eq!(caps[1].versions, vec![0]);
}

#[test]
fn empty_name_terminates_and_the_rest_is_ignored() {
    let mut advert = record(b"hash", 0);
    advert.push(0);
    advert.extend(record(b"late", 1));
    let caps = decode_capabilities(&advert).unwrap();
    assert_eq!(caps.len(), 1);
    assert_eq!(caps[0].name, b"hash".to_vec());
}

#[test]
fn empty_advertisement_decodes_to_nothing() {
    assert_eq!(decode_capabilities(&vec![0]).unwrap().len(), 0);
    assert_eq!(decode_capabilities(&Vec::new()).unwrap().len(), 0);
}

#[test]
fn invalid_name_text_is_rejected() {
    // 0xff is never valid UTF-8
    let advert = vec![0xff, 0x00, 0x01, 0x00, 0x00];
    let err = decode_capabilities(&advert).unwrap_err();
    assert!(err == Error::InvalidUTF8);
    assert_eq!(err.code(), 3);
}

#[test]
fn multibyte_names_are_accepted() {
    // "häsh" in UTF-8
    let name: Vec<u8> = vec![0x68, 0xc3, 0xa4, 0x73, 0x68];
    let mut advert = record(&name, 0);
    advert.push(0);
    let caps = decode_capabilities(&advert).unwrap();
    assert_eq!(caps[0].name, name);
}

#[test]
fn truncated_overlong_and_surrogate_encodings_are_rejected() {
    // truncated two-byte sequence
    assert!(decode_capabilities(&vec![0xc3, 0x00, 0x01, 0x00, 0x00]).is_err());
    // overlong encoding of '/'
    assert!(decode_capabilities(&vec![0xc0, 0xaf, 0x00, 0x01, 0x00, 0x00]).is_err());
    // surrogate codepoint
    assert!(decode_capabilities(&vec![0xed, 0xa0, 0x80, 0x00, 0x01, 0x00, 0x00]).is_err());
}
