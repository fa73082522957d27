use syster_base::{FileId, SourceRoot};

#[test]
fn test_source_root_basic() {
    let mut root = SourceRoot::new();

    let file1 = FileId::new(0);
    let file2 = FileId::new(1);

    root.insert(file1, "/path/to/a.sysml");
    root.insert(file2, "/path/to/b.sysml");

    assert_eq!(root.len(), 2);
    assert!(root.contains(file1));
    assert_eq!(root.path(file1), Some("/path/to/a.sysml"));
}

#[test]
fn test_source_root_remove() {
    let mut root = SourceRoot::new();
    let file = FileId::new(0);

    root.insert(file, "/path/to/a.sysml");
    assert!(root.contains(file));

    root.remove(file);
    assert!(!root.contains(file));
}

#[test]
fn source_root_insert_keeps_position_and_replaces_path() {
    let mut root = SourceRoot::new();
    assert!(root.is_empty());
    root.insert(FileId::new(5), "a");
    root.insert(FileId::new(6), "b");
    root.insert(FileId::new(5), "c");
    let pairs: Vec<(u32, String)> = root.iter().into_iter().map(|(f, p)| (f.index(), p.to_string())).collect();
    assert_eq!(pairs, vec![(5, "c".to_string()), (6, "b".to_string())]);
    assert_eq!(root.len(), 2);
}

#[test]
fn source_root_remove_moves_last_into_place() {
    let mut root = SourceRoot::new();
    root.insert(FileId::new(1), "one");
    root.insert(FileId::new(2), "two");
    root.insert(FileId::new(3), "three");
    assert_eq!(root.remove(FileId::new(1)).as_deref(), Some("one"));
    assert_eq!(root.remove(FileId::new(9)), None);
    let order: Vec<u32> = root.iter().into_iter().map(|(f, _)| f.index()).collect();
    assert_eq!(order, vec![3, 2]);
    assert_eq!(root.path(FileId::new(1)), None);
    assert_eq!(root.path(FileId::new(3)), Some("three"));
}
