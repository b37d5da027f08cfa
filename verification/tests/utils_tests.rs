use riven::utils::{has_valid_extension, join_module_parts, partition_errors, FileInfo, PathInfo, TextPos};

#[test]
fn joined_spans_cover_both() {
    let a = TextPos::new(3, 5);
    let b = TextPos::new(1, 4);
    assert_eq!(a + b, TextPos::new(1, 5));
    assert_eq!(b + a, TextPos::new(1, 5));
    let c = TextPos::new(7, 9);
    assert_eq!((a + b) + c, a + (b + c));
    assert_eq!(TextPos::from(4), TextPos::uniform(4));
}

#[test]
fn locations_count_lines_and_columns() {
    let f = FileInfo::from_text("ab\ncd\n", "m.rvn".to_string());
    let first = TextPos::uniform(0).get_loc(&f);
    assert_eq!((first.line, first.column), (1, 2));
    let second_line = TextPos::uniform(3).get_loc(&f);
    assert_eq!((second_line.line, second_line.column), (2, 1));
    let past_end = TextPos::uniform(10).get_loc(&f);
    assert_eq!((past_end.line, past_end.column), (3, 1));
    assert_eq!(second_line.to_text(), "m.rvn:2:1");
}

#[test]
fn location_text_prefers_the_full_path() {
    let path = PathInfo { full_path: Some("/home/x/main.rvn".to_string()), relative_path: "src".to_string() };
    let f = FileInfo::new("x".to_string(), path);
    assert_eq!(TextPos::uniform(0).get_loc(&f).to_text(), "/home/x/main.rvn:1:2");
}

#[test]
fn relative_path_splits_into_module_path() {
    let p = PathInfo { full_path: None, relative_path: "a/b/c.rvn".to_string() };
    assert_eq!(p.split_relative(), vec!["a".to_string(), "b".to_string(), "c".to_string()]);
    let single = PathInfo { full_path: None, relative_path: "main.rvn".to_string() };
    assert_eq!(single.split_relative(), vec!["main".to_string()]);
}

#[test]
fn extension_check_reads_the_last_dot() {
    assert!(has_valid_extension("prog.rvn", "rvn"));
    assert!(has_valid_extension("dir/prog.tar.rvn", "rvn"));
    assert!(!has_valid_extension("prog.txt", "rvn"));
    assert!(!has_valid_extension("rvn", "rvn"));
    assert!(!has_valid_extension(".rvn", "rvn"));
}

#[test]
fn partition_keeps_all_values_or_all_errors() {
    let ok: Vec<Result<i32, String>> = vec![Ok(1), Ok(2)];
    assert_eq!(partition_errors(ok), Ok(vec![1, 2]));
    let mixed: Vec<Result<i32, String>> = vec![Ok(1), Err("a".to_string()), Ok(3), Err("b".to_string())];
    assert_eq!(partition_errors(mixed), Err(vec!["a".to_string(), "b".to_string()]));
    let empty: Vec<Result<i32, String>> = vec![];
    assert_eq!(partition_errors(empty), Ok(vec![]));
}

#[test]
fn files_keep_their_text() {
    let f = FileInfo::from_text("héllo", "x.rvn".to_string());
    assert_eq!(f.chars, vec!['h', 'é', 'l', 'l', 'o']);
    assert_eq!(f.path.relative_path, "x.rvn");
    assert!(f.path.full_path.is_none());
}

#[test]
fn module_parts_end_with_the_stem() {
    let parts = join_module_parts(vec!["a".to_string(), "b".to_string()], Some("c".to_string()));
    assert_eq!(parts, vec!["a".to_string(), "b".to_string(), "c".to_string()]);
    let no_stem = join_module_parts(vec!["a".to_string()], None);
    assert_eq!(no_stem, vec!["a".to_string()]);
}
