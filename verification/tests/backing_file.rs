use logseq_sqlite::backing_file::{
    empty_file_name, new_empty_file_name, RawFileScan, ScanAction, ScanEvent,
};

#[test]
fn names_of_backing_files() {
    assert_eq!(
        empty_file_name([
            0x00, 0x11, 0x22, 0x33, 0x44, 0x55, 0x66, 0x77, 0x88, 0x99, 0xaa, 0xbb, 0xcc, 0xdd,
            0xee, 0xff
        ]),
        "00112233-4455-4677-8899-aabbccddeeff.raw"
    );
    assert_eq!(empty_file_name([0; 16]), "00000000-0000-4000-8000-000000000000.raw");
    assert_eq!(empty_file_name([0xff; 16]), "ffffffff-ffff-4fff-bfff-ffffffffffff.raw");
}

#[test]
fn new_names_are_random() {
    let a = new_empty_file_name().unwrap();
    let b = new_empty_file_name().unwrap();
    assert_ne!(a, b);
    for name in [a, b] {
        assert_eq!(name.len(), 40);
        assert!(name.ends_with(".raw"));
        let uuid = uuid::Uuid::parse_str(&name[..36]).unwrap();
        assert_eq!(uuid.get_version_num(), 4);
        assert_eq!(uuid.to_string(), &name[..36]);
        for (i, c) in name[..36].chars().enumerate() {
            if i == 8 || i == 13 || i == 18 || i == 23 {
                assert_eq!(c, '-');
            } else {
                assert!(c.is_ascii_digit() || ('a'..='f').contains(&c));
            }
        }
    }
}

#[test]
fn a_search_finds_backing_files() {
    let new_name = new_empty_file_name().unwrap();
    let entries = ["metadata.bincode", "a.raw", "b.raw.txt", &new_name, ".raw"];
    let mut scan = RawFileScan::new();
    let mut next: usize = 0;
    let mut action = ScanAction::Next;
    let mut opened: u32 = 10;
    loop {
        let event = match action {
            ScanAction::Next => {
                if next < entries.len() {
                    next += 1;
                    ScanEvent::Entry { path: entries[next - 1].to_string() }
                } else {
                    ScanEvent::End
                }
            }
            ScanAction::Open { path } => {
                opened += 1;
                ScanEvent::Opened { path, handle: opened }
            }
            ScanAction::Finish => break,
        };
        action = scan.entries_to_vec(event);
    }
    assert_eq!(
        scan.found,
        vec![
            ("a.raw".to_string(), 11),
            (new_name, 12),
            (".raw".to_string(), 13)
        ]
    );
}

#[test]
fn steps_of_a_search() {
    let mut scan = RawFileScan::new();
    assert_eq!(
        scan.entries_to_vec(ScanEvent::Entry { path: "x.raw".to_string() }),
        ScanAction::Open { path: "x.raw".to_string() }
    );
    assert_eq!(
        scan.entries_to_vec(ScanEvent::Entry { path: "raw".to_string() }),
        ScanAction::Next
    );
    assert_eq!(scan.entries_to_vec(ScanEvent::End), ScanAction::Finish);
    assert!(scan.found.is_empty());
}
