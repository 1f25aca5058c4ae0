use filetoolkit::commands::dedup::{delete_report, duplicate_candidates, duplicate_groups, folder_error, scan_report, size_classes, text_classes};

fn strings(v: &[&str]) -> Vec<String> {
    v.iter().map(|s| s.to_string()).collect()
}

#[test]
fn size_classes_are_whole_and_ordered() {
    let sizes = vec![5u64, 3, 5, 7, 3, 5];
    assert_eq!(size_classes(&sizes, 2), vec![vec![0, 2, 5], vec![1, 4]]);
    assert_eq!(size_classes(&sizes, 1), vec![vec![0, 2, 5], vec![1, 4], vec![3]]);
    assert_eq!(size_classes(&sizes, 3), vec![vec![0, 2, 5]]);
    assert!(size_classes(&vec![], 2).is_empty());
}

#[test]
fn text_classes_group_equal_texts() {
    let keys = strings(&["h1", "h2", "h1", "h3"]);
    assert_eq!(text_classes(&keys, 2), vec![vec![0, 2]]);
    assert_eq!(text_classes(&keys, 1), vec![vec![0, 2], vec![1], vec![3]]);
}

#[test]
fn candidates_and_groups_give_paths() {
    let paths = strings(&["/a", "/b", "/c", "/d"]);
    let sizes = vec![10u64, 20, 10, 10];
    assert_eq!(duplicate_candidates(&paths, &sizes), vec![strings(&["/a", "/c", "/d"])]);

    let files = strings(&["/a", "/c", "/d"]);
    let hashes = strings(&["x", "y", "x"]);
    assert_eq!(duplicate_groups(&files, &hashes), vec![strings(&["/a", "/d"])]);
    assert!(duplicate_groups(&files, &strings(&["x", "y", "z"])).is_empty());
}

#[test]
fn scan_report_counts_groups_and_files() {
    let r = scan_report(vec![strings(&["/a", "/d"]), strings(&["/b", "/e", "/f"])]);
    assert!(r.success);
    assert_eq!(r.msg, "发现 2 组重复文件,共 5 个文件");
    assert_eq!(r.duplicate_groups.len(), 2);
    assert_eq!(scan_report(vec![]).msg, "发现 0 组重复文件,共 0 个文件");
}

#[test]
fn delete_report_lists_failures() {
    let paths = strings(&["/a", "/b", "/c"]);
    let all_ok = delete_report(&paths, &vec![None, None, None]);
    assert!(all_ok.success);
    assert_eq!(all_ok.msg, "已删除 3 个文件");
    assert!(all_ok.delete_fail.is_empty());

    let some_failed = delete_report(&paths, &vec![None, Some("denied".to_string()), None]);
    assert!(!some_failed.success);
    assert_eq!(some_failed.msg, "删除 2/3 个成功, 1 个失败");
    assert_eq!(some_failed.delete_fail, strings(&["/b: denied"]));
}

#[test]
fn scanning_needs_a_folder() {
    assert_eq!(folder_error("/x"), "不是有效的文件夹: /x");
}
