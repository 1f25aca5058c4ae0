use filetoolkit::commands::image::{
    check_compress_request, get_output_path, image_encoding, image_params, processed_message, resize_box, ImageEncoding,
};
use filetoolkit::pipeline::model::{ParamMap, ParamValue};

#[test]
fn output_candidates() {
    assert_eq!(get_output_path("/in/photo.png", "/out", "jpeg", 0), "/out/photo.jpg");
    assert_eq!(get_output_path("/in/photo.png", "/out", "webp", 2), "/out/photo_2.webp");
    assert_eq!(get_output_path("/in/photo.png", "/out", "png", 1), "/out/photo_1.png");
}

#[test]
fn request_checks_in_order() {
    assert_eq!(check_compress_request(1, 101, "jpg"), Err("质量参数必须在 0-100 之间".to_string()));
    assert_eq!(check_compress_request(1, 80, "GIF"), Err("不支持的输出格式: GIF, 可选: jpg, png, webp".to_string()));
    assert_eq!(check_compress_request(0, 80, "png"), Err("文件列表不能为空".to_string()));
    assert_eq!(check_compress_request(2, 100, "WebP"), Ok("webp".to_string()));
}

#[test]
fn task_settings_with_defaults() {
    let defaults = image_params(&ParamMap { entries: vec![] });
    assert_eq!(defaults.quality, 80);
    assert_eq!(defaults.format, "jpg");
    assert_eq!(defaults.max_width, None);
    let p = ParamMap {
        entries: vec![
            ("quality".to_string(), ParamValue::Unsigned(300)),
            ("format".to_string(), ParamValue::Text("png".to_string())),
            ("maxWidth".to_string(), ParamValue::Unsigned(800)),
        ],
    };
    let s = image_params(&p);
    assert_eq!(s.quality, 44);
    assert_eq!(s.format, "png");
    assert_eq!(s.max_width, Some(800));
    assert_eq!(s.max_height, None);
}

#[test]
fn scaling_only_when_too_large() {
    assert_eq!(resize_box(1000, 500, Some(800), Some(800)), Some((800, 800)));
    assert_eq!(resize_box(600, 500, Some(800), Some(800)), None);
    assert_eq!(resize_box(1000, 500, Some(800), None), Some((800, u32::MAX)));
    assert_eq!(resize_box(1000, 500, None, Some(400)), Some((u32::MAX, 400)));
    assert_eq!(resize_box(1000, 500, None, None), None);
}

#[test]
fn encodings() {
    assert_eq!(image_encoding("jpeg"), Some(ImageEncoding::Jpeg));
    assert_eq!(image_encoding("png"), Some(ImageEncoding::Png));
    assert_eq!(image_encoding("webp"), Some(ImageEncoding::WebP));
    assert_eq!(image_encoding("bmp"), None);
    assert_eq!(processed_message("a.png"), "处理完成: a.png");
}
