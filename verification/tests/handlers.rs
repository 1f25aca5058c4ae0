use filetoolkit::commands::archive::{batch_label, batch_members};
use filetoolkit::commands::office::moves_onto_output;
use filetoolkit::commands::rename::target_taken;
use filetoolkit::text::{chars_of, join_texts};
use filetoolkit::pipeline::executor::HandlerRegistry;
use filetoolkit::pipeline::handlers::{
    archive_compress_plan, audio_plan, copy_target, dedup_plan, image_compress_plan, join_errors, pdf_compress_outputs,
    pdf_merge_output, pdf_split_ranges, pipeline_resize, rename_params, run_failure, save_method, split_ranges,
    video_cut_plan, video_to_gif_plan, video_transcode_plan, page_merge_plan, CopyTarget, HandlerKind, PagesDoc, PipelineResize,
    SaveMethod,
};
use filetoolkit::pipeline::model::{NodeType, ParamDef, ParamDefault, ParamMap, ParamType, ParamValue, PortDef, SelectOption};
use filetoolkit::pipeline::registry::get_all_node_types;

fn strings(v: &[&str]) -> Vec<String> {
    v.iter().map(|s| s.to_string()).collect()
}

fn params(entries: Vec<(&str, ParamValue)>) -> ParamMap {
    ParamMap { entries: entries.into_iter().map(|(k, v)| (k.to_string(), v)).collect() }
}

fn text(v: &str) -> ParamValue {
    ParamValue::Text(v.to_string())
}

#[test]
fn test_handler_registry_has_all_types() {
    let registry = HandlerRegistry::with_defaults(|kind: HandlerKind| kind);
    let types = get_all_node_types();
    for nt in &types {
        assert!(registry.get(&nt.id).is_some(), "缺少处理器: {}", nt.id);
    }
    assert_eq!(registry.get("office_convert"), Some(&HandlerKind::CopyThrough));
    assert_eq!(registry.get("audio_convert"), Some(&HandlerKind::AudioConvert));
    assert_eq!(registry.get("unknown"), None);
}

#[test]
fn test_node_type_example() {
    let nt = NodeType {
        id: "image_compress".into(),
        name: "图片压缩".into(),
        category: "图片".into(),
        description: "批量压缩图片并转换格式".into(),
        icon: "Picture".into(),
        inputs: vec![PortDef { id: "input".into(), label: "输入文件".into(), port_type: "file[]".into() }],
        outputs: vec![PortDef { id: "output".into(), label: "输出文件".into(), port_type: "file[]".into() }],
        params: vec![
            ParamDef {
                key: "quality".into(),
                label: "质量".into(),
                param_type: ParamType::Slider { min: 1, max: 100, step: 1 },
                default: Some(ParamDefault::Number(80)),
                required: false,
                help: "输出质量(1-100)".into(),
                options: vec![],
            },
            ParamDef {
                key: "format".into(),
                label: "输出格式".into(),
                param_type: ParamType::Select,
                default: Some(ParamDefault::Text("webp".into())),
                required: true,
                help: "".into(),
                options: vec![
                    SelectOption { value: "jpg".into(), label: "JPG".into() },
                    SelectOption { value: "png".into(), label: "PNG".into() },
                    SelectOption { value: "webp".into(), label: "WebP".into() },
                ],
            },
        ],
    };
    assert_eq!(nt.id, "image_compress");
    assert_eq!(nt.params.len(), 2);
}

#[test]
fn image_step_outputs_and_settings() {
    let files = strings(&["/in/a.png", "/in/b.jpg"]);
    let (settings, outs) = image_compress_plan(&files, &params(vec![("format", text("webp"))]), "/out");
    assert_eq!(settings.quality, 80);
    assert_eq!(outs, strings(&["/out/a.webp", "/out/b.webp"]));
    assert_eq!(save_method("jpeg"), SaveMethod::Jpeg);
    assert_eq!(save_method("webp"), SaveMethod::WebP);
    assert_eq!(save_method("png"), SaveMethod::ByExtension);
    assert_eq!(pipeline_resize(1000, 400, Some(500), None), PipelineResize::ToWidth(500));
    assert_eq!(pipeline_resize(400, 1000, None, Some(500)), PipelineResize::ToHeight(500));
    assert_eq!(pipeline_resize(400, 400, Some(500), Some(500)), PipelineResize::Keep);
    assert_eq!(pipeline_resize(600, 400, Some(500), Some(500)), PipelineResize::Fit(500, 500));
}

#[test]
fn rename_and_archive_and_pdf_steps() {
    let (prefix, start, suffix) = rename_params(&params(vec![("prefix", text("img_")), ("startNum", ParamValue::Unsigned(0x1_0000_0005))]));
    assert_eq!((prefix.as_str(), start, suffix.as_str()), ("img_", 5, ""));
    assert_eq!(join_errors(&strings(&["a", "b", "c"])), "a; b; c");
    assert_eq!(join_errors(&vec![]), "");
    let (zip, names) = archive_compress_plan(&strings(&["/x/a.txt", "/"]), "/out");
    assert_eq!(zip, "/out/archive.zip");
    assert_eq!(names, strings(&["a.txt", "unknown"]));
    assert_eq!(pdf_merge_output(&params(vec![]), "/out"), "/out/merged.pdf");
    assert_eq!(pdf_merge_output(&params(vec![("outputName", text("book"))]), "/out"), "/out/book.pdf");
    assert_eq!(pdf_compress_outputs(&strings(&["/x/a.pdf"]), "/o"), strings(&["/o/a.pdf"]));
}

#[test]
fn ffmpeg_steps() {
    let files = strings(&["/v/a.mkv"]);
    let cut = video_cut_plan(&files, &params(vec![]), "/o");
    assert_eq!(cut[0].output, "/o/cut_output.mkv");
    assert_eq!(
        cut[0].runs,
        vec![strings(&["-ss", "00:00:00", "-i", "/v/a.mkv", "-to", "00:00:10", "-c", "copy", "-avoid_negative_ts", "make_zero", "/o/cut_output.mkv"])]
    );
    let slow = video_cut_plan(&files, &params(vec![("mode", text("accurate"))]), "/o");
    assert_eq!(slow[0].runs[0][7], "libx264");

    let tr = video_transcode_plan(&files, &params(vec![("videoCodec", text("h265")), ("crf", ParamValue::Unsigned(28))]), "/o");
    assert_eq!(
        tr[0].runs,
        vec![strings(&["-i", "/v/a.mkv", "-c:v", "libx265", "-crf", "28", "-preset", "medium", "-c:a", "aac", "/o/transcode_output.mp4"])]
    );
    let enc = video_transcode_plan(&files, &params(vec![("encoder", text("h264_nvenc"))]), "/o");
    assert_eq!(enc[0].runs[0][3], "h264_nvenc");

    let gif = video_to_gif_plan(&files, &params(vec![]), "/o");
    assert_eq!(gif[0].runs.len(), 2);
    assert_eq!(gif[0].runs[0][7], "fps=10,scale=480:-1:flags=lanczos,palettegen");
    assert_eq!(gif[0].runs[0][3], "5");
    assert_eq!(gif[0].cleanup, Some("/o/palette.png".to_string()));
    assert_eq!(gif[0].output, "/o/output.gif");

    let audio = audio_plan(&files, &params(vec![("format", text("ogg"))]), "/o");
    assert_eq!(audio[0].runs, vec![strings(&["-i", "/v/a.mkv", "-vn", "-c:a", "libvorbis", "-b:a", "192k", "/o/audio_output.ogg"])]);

    assert_eq!(run_failure(&strings(&["-i", "x", "/o/out.mp4"]), "warn\nfatal error\n"), "ffmpeg(/o/out.mp4): fatal error");
}

#[test]
fn split_ranges_are_trimmed() {
    assert_eq!(split_ranges(" 1-3, ,5- ,"), strings(&["1-3", "5-"]));
    assert_eq!(pdf_split_ranges(&params(vec![])), strings(&["1"]));
}

#[test]
fn dedup_keeps_the_first_of_each_hash() {
    let files = strings(&["/a/x.txt", "/b/y.txt", "/c/x.txt"]);
    let hashes = strings(&["h1", "h2", "h1"]);
    let steps = dedup_plan(&files, &hashes, "/out");
    assert_eq!(steps.len(), 2);
    assert_eq!((steps[0].from.as_str(), steps[0].to.as_str(), steps[0].copy), ("/a/x.txt", "/out/x.txt", true));
    assert_eq!((steps[1].from.as_str(), steps[1].to.as_str()), ("/b/y.txt", "/out/y.txt"));
    let same = dedup_plan(&strings(&["/out/x.txt"]), &strings(&["h"]), "/out");
    assert!(!same[0].copy);
}

#[test]
fn copy_targets() {
    assert!(matches!(copy_target("/out/a.txt", "/out"), CopyTarget::Same));
    match copy_target("/in/a.tar.gz", "/out") {
        CopyTarget::To { primary, alternate } => {
            assert_eq!(primary, "/out/a.tar.gz");
            assert_eq!(alternate, "/out/a.tar_step.gz");
        }
        CopyTarget::Same => panic!("expected a copy"),
    }
    match copy_target("/in/README", "/out") {
        CopyTarget::To { alternate, .. } => assert_eq!(alternate, "/out/README_step"),
        CopyTarget::Same => panic!("expected a copy"),
    }
}

#[test]
fn joining_and_splitting_batches() {
    let batch = strings(&["/a/1.txt", "/b/2.txt"]);
    assert_eq!(batch_label(&batch), "/a/1.txt|/b/2.txt");
    assert_eq!(batch_members(&batch_label(&batch)), batch);
    assert_eq!(batch_members(""), strings(&[""]));
    assert_eq!(join_texts(&strings(&["x"]), ", "), "x");
    assert_eq!(chars_of("héllo"), vec!['h', 'é', 'l', 'l', 'o']);
}

#[test]
fn taken_targets() {
    assert!(target_taken("/d/img_1.jpg", "/d/a.jpg", true));
    assert!(!target_taken("/d/a.jpg", "/d/./a.jpg", true));
    assert!(!target_taken("/d/img_1.jpg", "/d/a.jpg", false));
    assert!(moves_onto_output("/o/a.pdf", "/o/b.pdf", true));
    assert!(!moves_onto_output("/o/a.pdf", "/o//a.pdf", true));
}

#[test]
fn page_by_page_merge() {
    let a = PagesDoc { pages: vec![(2, 0, true), (3, 0, false)], objects: vec![(1, 0), (2, 0), (4, 0)] };
    let b = PagesDoc { pages: vec![(4, 0, true)], objects: vec![(4, 0), (5, 0)] };
    let (kids, copies) = page_merge_plan(&vec![a, b]);
    assert_eq!(kids, vec![(2, 0), (3, 0), (4, 0)]);
    assert_eq!(copies, vec![(0, 2, 0, true), (0, 1, 0, false), (0, 4, 0, false), (1, 4, 0, true), (1, 5, 0, false)]);
}
