use impact_scanner::changes::{collect_changed_lines, FileChanges, LineChange};
use impact_scanner::impact::find_impacted_locations;

fn rec(file: &str, origin: char, new_line: usize) -> LineChange {
    LineChange { file: file.to_string(), origin, new_line }
}

fn entry<'a>(out: &'a [FileChanges], file: &str) -> Option<&'a FileChanges> {
    out.iter().find(|e| e.file == file)
}

#[test]
fn added_lines_group_per_file_in_record_order() {
    let records = vec![
        rec("a.rs", '+', 1),
        rec("b.rs", '+', 2),
        rec("a.rs", '-', 3),
        rec("a.rs", '+', 4),
        rec("c.rs", '+', 0),
        rec("b.rs", ' ', 9),
    ];
    let out = collect_changed_lines(&records);
    assert_eq!(out.len(), 2);
    assert_eq!(entry(&out, "a.rs").unwrap().lines, vec![1, 4]);
    assert_eq!(entry(&out, "b.rs").unwrap().lines, vec![2]);
    assert!(entry(&out, "c.rs").is_none());
}

#[test]
fn no_added_lines_means_no_entries() {
    let records = vec![rec("a.rs", '-', 1), rec("b.rs", '+', 0)];
    let out = collect_changed_lines(&records);
    assert!(out.is_empty());
}

#[test]
fn impacted_locations_are_empty() {
    let out = find_impacted_locations(&[]);
    assert!(out.is_empty());
}
