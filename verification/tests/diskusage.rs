use filetoolkit::commands::diskusage::{scanned_root, ScanTally};
use filetoolkit::commands::diskusage::{build_children, listing, root_name, scan_error, scan_progress_message, MAX_CHILDREN};
use filetoolkit::commands::greet;

fn entry(name: &str, size: u64, is_dir: bool) -> (String, String, u64, bool) {
    (name.to_string(), format!("/r/{}", name), size, is_dir)
}

#[test]
fn listing_is_a_stable_sort_largest_first() {
    assert_eq!(listing(&vec![3, 9, 3, 1, 9]), vec![1, 4, 0, 2, 3]);
    assert!(listing(&vec![]).is_empty());
}

#[test]
fn children_largest_first() {
    let kids = build_children(vec![entry("a", 10, false), entry("b", 30, true), entry("c", 20, false)]);
    let names: Vec<&str> = kids.iter().map(|k| k.name.as_str()).collect();
    assert_eq!(names, vec!["b", "c", "a"]);
    assert_eq!(kids[0].path, "/r/b");
    assert!(kids[0].is_dir);
    assert_eq!(kids[0].children.as_ref().map(|c| c.len()), Some(0));
    assert!(kids[1].children.is_none());
}

#[test]
fn children_beyond_the_cap_are_gathered() {
    let entries: Vec<_> = (0..205u64).map(|i| entry(&format!("f{}", i), i, false)).collect();
    let kids = build_children(entries);
    assert_eq!(kids.len(), MAX_CHILDREN + 1);
    assert_eq!(kids[0].name, "f204");
    assert_eq!(kids[199].name, "f5");
    let others = &kids[200];
    assert_eq!(others.name, "其他 (5 项)");
    assert_eq!(others.size, 0 + 1 + 2 + 3 + 4);
    assert_eq!(others.path, "");
    assert!(!others.is_dir);
    assert!(others.children.is_none());
    assert_eq!(kids.iter().map(|k| k.size).sum::<u64>(), (0..205u64).sum::<u64>());
}

#[test]
fn scan_texts() {
    assert_eq!(scan_progress_message(500, 2048), "扫描中: 500 文件, 2.0 KB");
    assert_eq!(scan_error("/x", false), "目录不存在: /x");
    assert_eq!(scan_error("/x", true), "路径不是目录: /x");
    assert_eq!(root_name("/home/user/docs"), "docs");
    assert_eq!(root_name("/"), "/");
    assert_eq!(greet("张三"), "来自 Rust 后端的问候:你好,张三!FileToolkit 已就绪。");
}

#[test]
fn scan_tally_reports_every_five_hundred_files() {
    let mut t = ScanTally::new();
    // a subdirectory of 1000 files of 2 bytes: reports at 500 and 1000
    let mut reports = Vec::new();
    for _ in 0..1000 {
        if let Some(r) = t.sub_file(2) {
            reports.push(r);
        }
    }
    assert_eq!(reports, vec![(500, 1000), (1000, 2000)]);
    // the subdirectory is done: no top-level file counted yet, so a report at zero files
    assert_eq!(t.entry_done(2000, true), Some((0, 2000)));
    assert_eq!((t.sub_files, t.sub_size), (0, 0));
    assert_eq!(t.entry_done(5, false), None);
    assert_eq!((t.file_count, t.total_size), (1, 2005));
    assert_eq!(t.sub_file(1), None);
    assert_eq!((t.sub_files, t.sub_size), (1, 1));
}

#[test]
fn scanned_root_holds_the_total_and_the_children() {
    let root = scanned_root("r", "/r", vec![entry("a", 5, false), entry("b", 9, true)]);
    assert_eq!(root.name, "r");
    assert_eq!(root.path, "/r");
    assert_eq!(root.size, 14);
    assert!(root.is_dir);
    let children = root.children.unwrap();
    assert_eq!(children.len(), 2);
    assert_eq!(children[0].name, "b");
}
