use filetoolkit::commands::archive::{
    archive_name, check_compress_format, check_files, compress_batches, compress_tasks, extract_dir, extract_tasks, extract_method, get_ext, is_archive_ext,
    ExtractMethod,
};
use filetoolkit::commands::office::{check_conversion, conversion_summary, generated_name};
use filetoolkit::commands::pdf::{
    check_merge_inputs, check_split_ranges, format_size, merge_summary, pages_to_delete, parse_range, split_output_name,
};
use filetoolkit::commands::rename::{rename_outcome, rename_plan, rename_result, renamed_file_name, target_exists_message, CopyOutcome};

fn strings(v: &[&str]) -> Vec<String> {
    v.iter().map(|s| s.to_string()).collect()
}

#[test]
fn page_ranges_as_documented() {
    assert_eq!(parse_range("3", 10), Ok((3, 3)));
    assert_eq!(parse_range("1-5", 10), Ok((1, 5)));
    assert_eq!(parse_range("5-", 10), Ok((5, 10)));
    assert_eq!(parse_range(" 2 - 4 ", 10), Ok((2, 4)));
}

#[test]
fn page_range_errors() {
    assert_eq!(parse_range("-3", 10), Err("无效页码范围: -3".to_string()));
    assert_eq!(parse_range("a-3", 10), Err("无效页码: a".to_string()));
    assert_eq!(parse_range("0", 10), Err("页码 0 超出范围 (1-10)".to_string()));
    assert_eq!(parse_range("2-11", 10), Err("页码 11 超出范围 (1-10)".to_string()));
    assert_eq!(parse_range("7-3", 10), Err("起始页码 7 不能大于结束页码 3".to_string()));
    assert_eq!(parse_range("x", 10), Err("无效页码: x".to_string()));
}

#[test]
fn pdf_texts() {
    assert_eq!(format_size(500), "500 B");
    assert_eq!(format_size(1536), "2 KB");
    assert_eq!(format_size(2560), "2 KB");
    assert_eq!(format_size(3 * 1024 * 1024 / 2), "1.5 MB");
    assert_eq!(split_output_name(1, 3, 10), "split_1-3.pdf");
    assert_eq!(split_output_name(4, 10, 10), "split_4-end.pdf");
    assert_eq!(pages_to_delete(&vec![1, 2, 3, 4, 5], 2, 4), vec![1, 5]);
    assert_eq!(check_merge_inputs(1), Err("至少需要两个 PDF 文件才能合并".to_string()));
    assert_eq!(check_merge_inputs(2), Ok(()));
    assert!(check_split_ranges(0).is_err());
    assert_eq!(merge_summary(2, "/o/m.pdf", 2048), "合并完成: 2 个文件 → /o/m.pdf\n总大小: 2 KB");
}

#[test]
fn renaming() {
    assert_eq!(renamed_file_name("", 7, "", "jpg"), "7.jpg");
    assert_eq!(renamed_file_name("", 7, "v2", "jpg"), "7_v2.jpg");
    assert_eq!(renamed_file_name("", 1, "x", "jpg"), "1_x.jpg");
    assert_eq!(renamed_file_name("img_", 1, "", "jpg"), "img_1.jpg");
    assert_eq!(renamed_file_name("img_", 7, "v2", ""), "img_7_v2");
    assert_eq!(renamed_file_name("img_", 7, "", ""), "img_7.");
    assert_eq!(renamed_file_name("img_", 7, "v2", "jpg"), "img_7_v2.jpg");
    assert_eq!(
        rename_plan(&strings(&["/a/x.png", "/b/y.jpg"]), "p_", 9, "", None),
        strings(&["/a/p_9.png", "/b/p_10.jpg"])
    );
    assert!(rename_plan(&strings(&["/tmp/t/src.jpg"]), "img_", 1, "", Some("/tmp/t"))[0].ends_with("img_1.jpg"));
    assert_eq!(rename_plan(&strings(&["/a/x.png"]), "", 1, "", Some("/out")), strings(&["/out/1.png"]));
    let ok = rename_result(2, Ok(strings(&["a", "b"])));
    assert!(ok.success);
    assert_eq!(ok.msg, "全部成功: 2/2");
    let some = rename_result(3, Err(strings(&["x: 目标已存在"])));
    assert!(some.success);
    assert_eq!(some.msg, "2/3 成功, 1 失败");
    let none = rename_result(1, Err(strings(&["e"])));
    assert!(!none.success);
    assert_eq!(target_exists_message("/a/x", "/a/y"), "/a/x → /a/y: 目标已存在");
}

#[test]
fn archives() {
    assert_eq!(get_ext("/a/B.ZIP"), "zip");
    assert_eq!(get_ext("/a/noext"), "");
    assert!(is_archive_ext("tgz"));
    assert!(!is_archive_ext("txt"));
    assert_eq!(extract_method("/a/x.zip"), Ok(ExtractMethod::Zip));
    assert_eq!(extract_method("/a/x.tar.gz"), Ok(ExtractMethod::TarGz));
    assert_eq!(extract_method("/a/x.tgz"), Ok(ExtractMethod::TarGz));
    assert_eq!(extract_method("/a/x.gz"), Err("不支持的格式: .gz, 仅支持 .tar.gz".to_string()));
    assert_eq!(extract_method("/a/x.tar"), Ok(ExtractMethod::Tar));
    assert_eq!(extract_method("/a/x.7z"), Ok(ExtractMethod::SevenZip));
    assert_eq!(extract_method("/a/x.rar"), Err("不支持该格式, 支持的格式: zip, tar, tar.gz, 7z".to_string()));
    assert_eq!(extract_dir("/a/x.tar.gz", "/out"), "/out/x");
    assert_eq!(extract_dir("/a/x.tgz", "/out"), "/out/x");
    assert_eq!(extract_dir("/a/x.zip", "/out"), "/out/x");
    assert_eq!(extract_dir("/a/x.tar", "/out"), "/out/x");
    assert_eq!(check_files(0), Err("文件列表不能为空".to_string()));
    assert_eq!(check_compress_format("ZIP"), Ok(()));
    assert_eq!(check_compress_format("7z"), Err("暂不支持格式: 7z, 目前仅支持 zip".to_string()));
    let files: Vec<String> = (0..45).map(|i| format!("f{}", i)).collect();
    let batches = compress_batches(&files);
    assert_eq!(batches.iter().map(|b| b.len()).collect::<Vec<_>>(), vec![20, 20, 5]);
    assert_eq!(batches[2][0], "f40");
    assert_eq!(compress_batches(&strings(&["a"])).len(), 1);
    assert_eq!(archive_name(0, 1), "archive.zip");
    assert_eq!(archive_name(2, 3), "archive_3.zip");
}

fn is_hyphenated_id(id: &str) -> bool {
    id.len() == 36
        && id.char_indices().all(|(i, c)| if [8, 13, 18, 23].contains(&i) { c == '-' } else { c.is_ascii_digit() || ('a'..='f').contains(&c) })
}

#[test]
fn archive_task_plans() {
    let tasks = extract_tasks(&strings(&["/in/a.zip", "/in/b.tar.gz"]), "/out");
    assert_eq!(tasks.len(), 2);
    assert_eq!(tasks[0].input_path, "/in/a.zip");
    assert_eq!(tasks[0].output_path, "/out/a");
    assert_eq!(tasks[1].output_path, "/out/b");
    assert!(tasks.iter().all(|t| is_hyphenated_id(&t.id)));
    assert_ne!(tasks[0].id, tasks[1].id);

    let files: Vec<String> = (0..25).map(|i| format!("f{}", i)).collect();
    let packs = compress_tasks(&files, "/out");
    assert_eq!(packs.len(), 2);
    assert_eq!(packs[0].output_path, "/out/archive_1.zip");
    assert_eq!(packs[1].output_path, "/out/archive_2.zip");
    assert_eq!(packs[1].input_path, "f20|f21|f22|f23|f24");
    let one = compress_tasks(&strings(&["x", "y"]), "/o");
    assert_eq!(one.len(), 1);
    assert_eq!(one[0].input_path, "x|y");
    assert_eq!(one[0].output_path, "/o/archive.zip");
    assert!(is_hyphenated_id(&one[0].id));
}

#[test]
fn office_conversion() {
    assert_eq!(check_conversion("/d/report.DOCX", "PDF"), Ok("pdf".to_string()));
    assert_eq!(
        check_conversion("/d/a.txt", "pdf"),
        Err("不支持的输入格式: .txt, 支持的格式: [\"docx\", \"doc\", \"xlsx\", \"xls\", \"pptx\", \"ppt\", \"odt\", \"ods\", \"odp\"]".to_string())
    );
    assert_eq!(
        check_conversion("/d/a.doc", "rtf"),
        Err("不支持的目标格式: rtf, 支持的格式: [\"pdf\", \"html\", \"docx\", \"txt\", \"csv\"]".to_string())
    );
    assert_eq!(generated_name("/d/report.docx", "pdf"), "report.pdf");
    assert_eq!(conversion_summary("/d/a.doc", "/o/a.pdf", 100), "转换完成: /d/a.doc → /o/a.pdf\n文件大小: 100 B");
}

#[test]
fn rename_outcomes_make_the_summary() {
    let files = strings(&["/a/x.png", "/a/y.png", "/a/z.png"]);
    let targets = strings(&["/o/1.png", "/o/2.png", "/o/3.png"]);
    let all = vec![CopyOutcome::Copied, CopyOutcome::Copied, CopyOutcome::Copied];
    let ok = rename_outcome(&files, &targets, &all);
    assert_eq!(ok, Ok(targets.clone()));
    let summary = rename_result(3, ok);
    assert!(summary.success);
    assert_eq!(summary.msg, "全部成功: 3/3");
    let mixed = vec![CopyOutcome::Copied, CopyOutcome::TargetTaken, CopyOutcome::Failed("denied".to_string())];
    let err = rename_outcome(&files, &targets, &mixed);
    assert_eq!(err, Err(strings(&["/a/y.png → /o/2.png: 目标已存在", "/a/z.png: denied"])));
    let summary = rename_result(3, err);
    assert!(summary.success);
    assert_eq!(summary.msg, "1/3 成功, 2 失败");
    assert_eq!(summary.fail_list.len(), 2);
}
