use logseq_sqlite::flat_folder::FlatFolderMetadata;
use logseq_sqlite::name_table::NameTable;

#[test]
fn insert_replaces_the_value() {
    let mut table: NameTable<u32> = NameTable::new();
    table.insert("a".to_string(), 1);
    table.insert("b".to_string(), 2);
    table.insert("a".to_string(), 3);
    assert_eq!(table.len(), 2);
    assert_eq!(table.get("a"), Some(&3));
    assert_eq!(table.get("b"), Some(&2));
    assert_eq!(table.get("c"), None);
}

#[test]
fn remove_gives_the_value() {
    let mut table: NameTable<u32> = NameTable::new();
    table.insert("a".to_string(), 1);
    table.insert("b".to_string(), 2);
    assert_eq!(table.remove("a"), Some(1));
    assert_eq!(table.remove("a"), None);
    assert!(!table.contains_key("a"));
    assert!(table.contains_key("b"));
    assert_eq!(table.len(), 1);
}

#[test]
fn a_value_is_changed_in_place() {
    let mut table: NameTable<u32> = NameTable::new();
    table.insert("a".to_string(), 1);
    *table.get_mut("a").unwrap() += 10;
    assert!(table.get_mut("b").is_none());
    assert_eq!(table.get("a"), Some(&11));
}

#[test]
fn a_list_gives_a_table() {
    let list = vec![
        ("a".to_string(), 1u32),
        ("b".to_string(), 2),
        ("a".to_string(), 3),
    ];
    let table = NameTable::from_entries(list);
    assert_eq!(table.len(), 2);
    assert_eq!(table.name_at(0), "a");
    assert_eq!(*table.value_at(0), 3);
    assert_eq!(table.as_list(), &vec![("a".to_string(), 3), ("b".to_string(), 2)]);
}

#[test]
fn a_folder_keeps_files() {
    let mut folder: FlatFolderMetadata<Vec<u8>> = FlatFolderMetadata::new();
    assert!(folder.get_file("a").is_none());
    folder.add_file("a".to_string(), vec![1]);
    folder.add_file("a".to_string(), vec![2]);
    folder.add_file("b".to_string(), vec![3]);
    folder.get_file_mut("b").unwrap().push(4);
    assert!(folder.get_file_mut("c").is_none());
    assert_eq!(folder.get_file("b"), Some(&vec![3, 4]));
    assert_eq!(folder.remove_file("a"), Some(vec![2]));
    assert_eq!(folder.remove_file("a"), None);
    assert_eq!(folder.get_file("a"), None);
}
