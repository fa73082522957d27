use std::collections::HashSet;

use syster_base::{DefId, FileId, LineCol, LineIndex, LocalDefId, Name};

#[test]
fn test_file_id_equality() {
    let a = FileId::new(1);
    let b = FileId::new(1);
    let c = FileId::new(2);

    assert_eq!(a, b);
    assert_ne!(a, c);
}

#[test]
fn test_file_id_hash() {
    let mut set = HashSet::new();
    set.insert(FileId::new(1));
    set.insert(FileId::new(2));
    set.insert(FileId::new(1));

    assert_eq!(set.len(), 2);
}

#[test]
fn test_file_id_size() {
    assert_eq!(std::mem::size_of::<FileId>(), 4);
}

#[test]
fn file_id_index_round_trip() {
    assert_eq!(FileId::new(7).index(), 7);
    assert_eq!(FileId::new(0).index(), 0);
}

#[test]
fn test_name_size() {
    assert_eq!(std::mem::size_of::<Name>(), 4);
}

#[test]
fn test_line_col_display() {
    let pos = LineCol::new(0, 0);
    assert_eq!(pos.display(), "1:1");

    let pos = LineCol::new(5, 10);
    assert_eq!(pos.display(), "6:11");
}

#[test]
fn line_col_display_multi_digit() {
    assert_eq!(LineCol::new(99, 1234).display(), "100:1235");
}

#[test]
fn test_line_col_from_one_indexed() {
    let pos = LineCol::from_one_indexed(1, 1);
    assert_eq!(pos.line, 0);
    assert_eq!(pos.col, 0);
}

#[test]
fn line_col_from_one_indexed_saturates_at_zero() {
    let pos = LineCol::from_one_indexed(0, 0);
    assert_eq!(pos, LineCol::new(0, 0));
    let pos = LineCol::from_one_indexed(3, 8);
    assert_eq!(pos, LineCol::new(2, 7));
    assert_eq!(pos.line_one_indexed(), 3);
    assert_eq!(pos.col_one_indexed(), 8);
}

#[test]
fn test_def_id_equality() {
    let file1 = FileId::new(1);
    let file2 = FileId::new(2);

    let a = DefId::new(file1, LocalDefId::new(0));
    let b = DefId::new(file1, LocalDefId::new(0));
    let c = DefId::new(file1, LocalDefId::new(1));
    let d = DefId::new(file2, LocalDefId::new(0));

    assert_eq!(a, b);
    assert_ne!(a, c);
    assert_ne!(a, d);
}

#[test]
fn test_def_id_size() {
    assert_eq!(std::mem::size_of::<DefId>(), 8);
}

#[test]
fn local_def_id_index() {
    assert_eq!(LocalDefId::new(42).index(), 42);
}

#[test]
fn test_line_index_single_line() {
    let index = LineIndex::new("hello world");

    assert_eq!(index.line_col(0), LineCol::new(0, 0));
    assert_eq!(index.line_col(5), LineCol::new(0, 5));
}

#[test]
fn test_line_index_multi_line() {
    let index = LineIndex::new("hello\nworld\n!");

    assert_eq!(index.line_col(0), LineCol::new(0, 0));
    assert_eq!(index.line_col(5), LineCol::new(0, 5));
    assert_eq!(index.line_col(6), LineCol::new(1, 0));
    assert_eq!(index.line_col(11), LineCol::new(1, 5));
    assert_eq!(index.line_col(12), LineCol::new(2, 0));
}

#[test]
fn test_line_index_offset() {
    let index = LineIndex::new("hello\nworld");

    assert_eq!(index.offset(LineCol::new(0, 0)), Some(0));
    assert_eq!(index.offset(LineCol::new(1, 0)), Some(6));
    assert_eq!(index.offset(LineCol::new(1, 3)), Some(9));
}

#[test]
fn line_index_counts_lines_and_rejects_missing_line() {
    let index = LineIndex::new("a\n\nb");
    assert_eq!(index.len(), 3);
    assert!(!index.is_empty());
    assert_eq!(index.offset(LineCol::new(3, 0)), None);
    assert_eq!(index.line_col(2), LineCol::new(1, 0));
    assert_eq!(index.line_col(3), LineCol::new(2, 0));
}

#[test]
fn name_table_interns_each_string_once() {
    let mut table = syster_base::NameTable::new();
    assert!(table.is_empty());
    let a = table.intern("hello");
    let b = table.intern("hello");
    let c = table.intern("world");
    assert_eq!(a, b);
    assert_ne!(a, c);
    assert_eq!(table.len(), 2);
    assert_eq!(a.index(), 0);
    assert_eq!(c.index(), 1);
    assert_eq!(table.lookup(c).as_deref(), Some("world"));
    assert_eq!(table.name_of("hello"), Some(a));
    assert_eq!(table.name_of("other"), None);
    assert_eq!(table.find("world"), Some(1));
}

#[test]
fn test_intern_same_string() {
    let mut interner = syster_base::NameTable::new();

    let a = interner.intern("hello");
    let b = interner.intern("hello");

    assert_eq!(a, b);
    assert_eq!(interner.len(), 1);
}

#[test]
fn test_intern_different_strings() {
    let mut interner = syster_base::NameTable::new();

    let a = interner.intern("hello");
    let b = interner.intern("world");

    assert_ne!(a, b);
    assert_eq!(interner.len(), 2);
}

#[test]
fn test_lookup() {
    let mut interner = syster_base::NameTable::new();

    let name = interner.intern("test");
    let s = interner.lookup(name).unwrap();

    assert_eq!(s.as_str(), "test");
}
