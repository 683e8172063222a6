use std::collections::HashMap;

use logseq_sqlite::error::PoolError;
use logseq_sqlite::metadata::{GlobalMetadata, EMPTY_FILES, METADATA_FILENAME};

fn sample() -> GlobalMetadata {
    let mut metadata = GlobalMetadata::new();
    metadata.version = -2;
    metadata.empty_files.push("e1".to_string());
    metadata.files.insert("p".to_string(), "ü".to_string());
    metadata
}

#[test]
fn constants_of_the_record() {
    assert_eq!(METADATA_FILENAME, "metadata.bincode");
    assert_eq!(EMPTY_FILES, 6);
}

#[test]
fn a_new_record_is_empty() {
    let metadata = GlobalMetadata::new();
    assert_eq!(metadata.version, 1);
    assert!(metadata.empty_files.is_empty());
    assert_eq!(metadata.files.len(), 0);
    assert_eq!(
        metadata.encode(),
        vec![1, 0, 0, 0, 0, 0, 0, 0, 0, 0, 0, 0, 0, 0, 0, 0, 0, 0, 0, 0]
    );
}

#[test]
fn a_record_in_bytes() {
    let expected: Vec<u8> = vec![
        0xfe, 0xff, 0xff, 0xff, // version
        1, 0, 0, 0, 0, 0, 0, 0, // one empty file
        2, 0, 0, 0, 0, 0, 0, 0, b'e', b'1', // its name
        1, 0, 0, 0, 0, 0, 0, 0, // one file
        1, 0, 0, 0, 0, 0, 0, 0, b'p', // its path
        2, 0, 0, 0, 0, 0, 0, 0, 0xc3, 0xbc, // its backing file
    ];
    assert_eq!(sample().encode(), expected);
}

#[test]
fn what_is_encoded_is_decoded() {
    let mut bytes = sample().encode();
    let read = GlobalMetadata::decode(&bytes).unwrap();
    assert_eq!(read.version, -2);
    assert_eq!(read.empty_files, vec!["e1".to_string()]);
    assert_eq!(read.files.len(), 1);
    assert_eq!(read.files.get("p"), Some(&"ü".to_string()));

    bytes.extend_from_slice(&[9, 9, 9]);
    let read = GlobalMetadata::decode(&bytes).unwrap();
    assert_eq!(read.version, -2);
    assert_eq!(read.files.get("p"), Some(&"ü".to_string()));
}

#[test]
fn a_map_has_the_same_bytes() {
    let mut map: HashMap<String, String> = HashMap::new();
    map.insert("a".to_string(), "1.raw".to_string());
    map.insert("b".to_string(), "2.raw".to_string());
    map.insert("c".to_string(), "3.raw".to_string());
    let empty: Vec<String> = vec!["4.raw".to_string()];
    let bytes = bincode::serialize(&(1i32, &empty, &map)).unwrap();

    let read = GlobalMetadata::decode(&bytes).unwrap();
    assert_eq!(read.version, 1);
    assert_eq!(read.empty_files, empty);
    assert_eq!(read.files.len(), 3);
    for (path, name) in &map {
        assert_eq!(read.files.get(path), Some(name));
    }

    let back: (i32, Vec<String>, HashMap<String, String>) =
        bincode::deserialize(&read.encode()).unwrap();
    assert_eq!(back, (1, empty, map));
}

#[test]
fn a_path_that_occurs_twice_has_its_last_backing_file() {
    let pairs = vec![("a", "1.raw"), ("b", "2.raw"), ("a", "3.raw")];
    let empty: Vec<String> = Vec::new();
    let bytes = bincode::serialize(&(1i32, &empty, &pairs)).unwrap();
    let read = GlobalMetadata::decode(&bytes).unwrap();
    assert_eq!(read.files.len(), 2);
    assert_eq!(read.files.get("a"), Some(&"3.raw".to_string()));
}

#[test]
fn bytes_that_record_nothing_are_refused() {
    let whole = sample().encode();
    for n in 1..whole.len() {
        match GlobalMetadata::decode(&whole[..n]) {
            Err(PoolError::Decode(text)) => assert!(!text.is_empty()),
            other => panic!("{:?}", other),
        }
    }
    let mut broken = whole.clone();
    let last = broken.len() - 1;
    broken[last] = 0xff;
    let error = GlobalMetadata::decode(&broken).unwrap_err();
    assert!(error.message().starts_with("string is not valid utf8: "));
}

#[test]
fn a_refusal_gives_the_reason() {
    let whole = sample().encode();
    let mut broken = whole.clone();
    broken[20] = 0xff;
    let mut long = whole.clone();
    long[4..12].copy_from_slice(&[0xff; 8]);
    for bytes in [&whole[..1], &whole[..11], &whole[..21], &whole[..30], &broken, &long] {
        let outside: Result<(i32, Vec<String>, HashMap<String, String>), _> =
            bincode::deserialize(bytes);
        assert_eq!(
            GlobalMetadata::decode(bytes).unwrap_err().message(),
            outside.unwrap_err().to_string()
        );
    }
}

#[test]
fn an_empty_file_records_that_there_is_no_file() {
    let read = GlobalMetadata::decode(&[]).unwrap();
    assert_eq!(read.version, 1);
    assert!(read.empty_files.is_empty());
    assert_eq!(read.files.len(), 0);
}

#[test]
fn backing_files_are_listed() {
    let mut metadata = GlobalMetadata::new();
    metadata.files.insert("a".to_string(), "1".to_string());
    metadata.files.insert("b".to_string(), "2".to_string());
    metadata.empty_files.push("3".to_string());
    assert_eq!(metadata.backing_files(), vec!["1", "2", "3"]);
}

#[test]
fn messages_of_failures() {
    assert_eq!(PoolError::FileNotFound.message(), "file not found");
    assert_eq!(PoolError::NotInited.message(), "metadata file is not inited");
    assert_eq!(PoolError::Decode("x".to_string()).message(), "x");
    assert_eq!(
        PoolError::NoRandomness.message(),
        "could not retrieve random bytes for uuid"
    );
}
