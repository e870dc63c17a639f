use notion_core::recent::add_recent_file;

#[test]
fn recent_file_goes_to_front() {
    let mut files = vec!["a".to_string(), "b".to_string()];
    add_recent_file(&mut files, &"c".to_string());
    assert_eq!(files, vec!["c".to_string(), "a".to_string(), "b".to_string()]);
}

#[test]
fn recent_file_duplicate_moves_up() {
    let mut files = vec!["a".to_string(), "b".to_string(), "c".to_string()];
    add_recent_file(&mut files, &"b".to_string());
    assert_eq!(files, vec!["b".to_string(), "a".to_string(), "c".to_string()]);
}

#[test]
fn recent_files_capped_at_ten() {
    let mut files: Vec<String> = (0..10).map(|i| format!("f{}", i)).collect();
    add_recent_file(&mut files, &"new".to_string());
    assert_eq!(files.len(), 10);
    assert_eq!(files[0], "new");
    assert_eq!(files[1], "f0");
    assert_eq!(files[9], "f8");
}

#[test]
fn recent_files_from_empty_list() {
    let mut files: Vec<String> = Vec::new();
    add_recent_file(&mut files, &"only".to_string());
    assert_eq!(files, vec!["only".to_string()]);
}
