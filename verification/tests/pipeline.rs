use filetoolkit::pipeline::model::{default_source_port, default_target_port, ParamDefault, ParamMap, ParamType, ParamValue, Pipeline, PipelineEdge, PipelineNode};
use filetoolkit::pipeline::preview::{dry_run, try_dry_run, topological_sort, predict_outputs, strip_ext, change_ext, add_suffix, get_ext};
use filetoolkit::pipeline::registry::{get_all_node_types, get_node_types, get_node_types_grouped};

fn text(k: &str, v: &str) -> (String, ParamValue) {
    (k.to_string(), ParamValue::Text(v.to_string()))
}

fn num(k: &str, v: u64) -> (String, ParamValue) {
    (k.to_string(), ParamValue::Unsigned(v))
}

fn node(id: &str, node_type: &str, label: &str, entries: Vec<(String, ParamValue)>) -> PipelineNode {
    PipelineNode { id: id.into(), node_type: node_type.into(), label: label.into(), params: ParamMap { entries } }
}

fn edge(id: &str, s: &str, t: &str) -> PipelineEdge {
    PipelineEdge { id: id.into(), source: s.into(), source_port: "default".into(), target: t.into(), target_port: "default".into() }
}

fn make_test_pipeline() -> Pipeline {
    Pipeline {
        name: "测试流水线".into(),
        description: "".into(),
        nodes: vec![
            node("n1", "rename", "重命名", vec![text("prefix", "img_"), num("startNum", 1), text("suffix", "")]),
            node("n2", "image_compress", "压缩为WebP", vec![text("format", "webp"), num("quality", 80)]),
        ],
        edges: vec![edge("e1", "n1", "n2")],
    }
}

#[test]
fn test_topological_sort() {
    let pipeline = make_test_pipeline();
    let order = topological_sort(&pipeline).unwrap();
    assert_eq!(order, vec!["n1", "n2"]);
}

#[test]
fn test_dry_run() {
    let pipeline = make_test_pipeline();
    let inputs = vec!["/photos/a.jpg".into(), "/photos/b.png".into()];
    let result = dry_run(&pipeline, inputs);

    assert!(!result.has_cycle);
    assert_eq!(result.steps.len(), 2);
    assert_eq!(result.steps[0].node_type, "rename");
    assert_eq!(result.steps[1].node_type, "image_compress");
    assert_eq!(result.steps[0].output_files[0], "img_1.jpg");
    assert_eq!(result.steps[0].output_files[1], "img_2.png");
    assert_eq!(result.steps[1].output_files[0], "img_1.webp");
    assert_eq!(result.steps[1].output_files[1], "img_2.webp");
}

#[test]
fn test_cycle_detection() {
    let mut pipeline = make_test_pipeline();
    pipeline.edges.push(edge("e2", "n2", "n1"));
    let result = dry_run(&pipeline, vec![]);
    assert!(result.has_cycle);
}

#[test]
fn test_preview_rename() {
    let result = dry_run(
        &Pipeline {
            name: "test".into(),
            description: "".into(),
            nodes: vec![node("n1", "rename", "重命名", vec![text("prefix", "photo_"), num("startNum", 1), text("suffix", "_v2")])],
            edges: vec![],
        },
        vec!["/a/1.jpg".into(), "/a/2.jpg".into()],
    );
    assert_eq!(result.steps[0].output_files[0], "photo_1_v2.jpg");
    assert_eq!(result.steps[0].output_files[1], "photo_2_v2.jpg");
}

#[test]
fn test_registry_not_empty() {
    let types = get_all_node_types();
    assert!(!types.is_empty(), "注册表不应为空");
    let categories: std::collections::HashSet<_> = types.iter().map(|t| &t.category).collect();
    assert!(categories.len() >= 4);
}

#[test]
fn test_node_type_ids_unique() {
    let types = get_all_node_types();
    let mut ids: std::collections::HashSet<&str> = std::collections::HashSet::new();
    for t in &types {
        assert!(ids.insert(&t.id), "重复的节点 ID: {}", t.id);
    }
}

#[test]
fn catalogue_entry_contents() {
    let types = get_all_node_types();
    let img = &types[0];
    assert_eq!(img.id, "image_compress");
    assert_eq!(img.category, "图片");
    assert_eq!(img.inputs.len(), 1);
    assert_eq!(img.inputs[0].port_type, "file[]");
    assert_eq!(img.params.len(), 4);
    assert_eq!(img.params[0].key, "quality");
    assert!(matches!(img.params[0].param_type, ParamType::Slider { min: 1, max: 100, step: 1 }));
    assert!(matches!(img.params[0].default, Some(ParamDefault::Number(80))));
    let fmt = &img.params[1];
    assert!(fmt.required);
    let values: Vec<&str> = fmt.options.iter().map(|o| o.value.as_str()).collect();
    assert_eq!(values, vec!["jpg", "png", "webp", "avif"]);
    assert!(matches!(&fmt.default, Some(ParamDefault::Text(t)) if t == "webp"));
    let dedup = types.iter().find(|t| t.id == "dedup").unwrap();
    assert_eq!(dedup.outputs[0].port_type, "file[]");
    assert_eq!(dedup.params[0].options.len(), 3);
    assert_eq!(dedup.params[0].options[1].label, "保留最大");
    let extract = types.iter().find(|t| t.id == "archive_extract").unwrap();
    assert!(extract.params.is_empty());
    assert_eq!(extract.outputs[0].port_type, "string");
}

#[test]
fn test_grouped() {
    let groups = get_node_types_grouped();
    assert!(!groups.is_empty());
}

#[test]
fn grouped_partitions_catalogue() {
    let groups = get_node_types_grouped();
    let total: usize = groups.iter().map(|g| g.items.len()).sum();
    assert_eq!(total, get_node_types().len());
    for g in &groups {
        assert!(g.items.iter().all(|t| t.category == g.category));
    }
    let cats: Vec<&String> = groups.iter().map(|g| &g.category).collect();
    assert_eq!(cats.len(), 5);
}

#[test]
fn path_helpers() {
    assert_eq!(strip_ext("/photos/a.jpg"), "/photos/a");
    assert_eq!(strip_ext("a.jpg"), "a");
    assert_eq!(strip_ext(".bashrc"), ".bashrc");
    assert_eq!(change_ext("/x/y.tar.gz", "zip"), "/x/y.tar.zip");
    assert_eq!(add_suffix("/x/y.png", "_v2"), "/x/y_v2.png");
    assert_eq!(add_suffix("/x/y", "_v2"), "/x/y_v2");
    assert_eq!(get_ext("a.JPG"), "JPG");
    assert_eq!(get_ext("noext"), "");
}

#[test]
fn predict_each_type() {
    let inputs = vec!["/d/a.mov".to_string(), "/d/b.pdf".to_string()];
    let p = ParamMap { entries: vec![text("ranges", "1-2,3-4,5-"), text("format", "png"), text("targetFormat", "docx")] };
    assert_eq!(predict_outputs("pdf_split", &inputs, &p), vec!["/d/a_split_1-1.pdf", "/d/a_split_2-2.pdf", "/d/a_split_3-3.pdf"]);
    assert_eq!(predict_outputs("image_compress", &inputs, &p), vec!["/d/a.png", "/d/b.png"]);
    assert_eq!(predict_outputs("office_convert", &inputs, &p), vec!["/d/a.docx", "/d/b.docx"]);
    assert_eq!(predict_outputs("video_cut", &inputs, &p), vec!["cut_output.mov"]);
    assert_eq!(predict_outputs("extract_audio", &inputs, &p), vec!["audio_output.png"]);
    assert_eq!(predict_outputs("archive_extract", &inputs, &p), vec!["/d/a/", "/d/b/"]);
    assert_eq!(predict_outputs("archive_compress", &inputs, &p), vec!["archive.zip"]);
    assert_eq!(predict_outputs("pdf_merge", &inputs, &ParamMap { entries: vec![] }), vec!["merged.pdf"]);
    assert_eq!(predict_outputs("something_else", &inputs, &p), inputs);
    let empty = ParamMap { entries: vec![] };
    assert_eq!(predict_outputs("image_compress", &inputs, &empty), vec!["/d/a.jpg", "/d/b.jpg"]);
    assert_eq!(predict_outputs("video_cut", &vec!["noext".to_string()], &empty), vec!["cut_output.mp4"]);
}

#[test]
fn unreachable_edge_target_makes_order_incomplete() {
    // a -> c where c is no node: c is ordered too, so the order holds more ids than nodes
    let p = Pipeline {
        name: "x".into(),
        description: "".into(),
        nodes: vec![node("a", "rename", "A", vec![]), node("b", "rename", "B", vec![])],
        edges: vec![edge("e", "a", "c")],
    };
    assert!(topological_sort(&p).is_err());
    // an edge from an unknown source blocks its target
    let q = Pipeline {
        name: "y".into(),
        description: "".into(),
        nodes: vec![node("a", "rename", "A", vec![])],
        edges: vec![edge("e", "x", "b")],
    };
    assert_eq!(topological_sort(&q).unwrap(), vec!["a"]);
}

#[test]
fn dry_run_refuses_numbers_past_usize() {
    let p = Pipeline {
        name: "big".into(),
        description: "".into(),
        nodes: vec![node("n1", "rename", "重命名", vec![num("startNum", u64::MAX)])],
        edges: vec![],
    };
    assert!(try_dry_run(&p, vec!["a.jpg".into(), "b.jpg".into()]).is_none());
    let one = try_dry_run(&p, vec!["a.jpg".into()]).unwrap();
    assert_eq!(one.steps[0].output_files, vec![format!("{}.jpg", u64::MAX)]);
    let normal = try_dry_run(&make_test_pipeline(), vec!["/photos/a.jpg".into()]).unwrap();
    assert_eq!(normal.steps[1].output_files, vec!["img_1.webp"]);
}

#[test]
fn edges_default_to_output_and_input_ports() {
    assert_eq!(default_source_port(), "output");
    assert_eq!(default_target_port(), "input");
}

#[test]
fn grouping_keeps_every_node_type_once_in_catalogue_order() {
    let all = get_all_node_types();
    let groups = get_node_types_grouped();
    let flat: Vec<String> = groups.iter().flat_map(|g| g.items.iter().map(|t| t.id.clone())).collect();
    let mut sorted_flat = flat.clone();
    sorted_flat.sort();
    let mut ids: Vec<String> = all.iter().map(|t| t.id.clone()).collect();
    ids.sort();
    assert_eq!(sorted_flat, ids);
    for g in &groups {
        let order: Vec<&String> = all.iter().filter(|t| t.category == g.category).map(|t| &t.id).collect();
        let got: Vec<&String> = g.items.iter().map(|t| &t.id).collect();
        assert_eq!(got, order);
    }
}
