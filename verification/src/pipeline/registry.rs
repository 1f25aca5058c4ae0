//! The catalogue of node types the pipeline editor offers.
use vstd::prelude::*;
use crate::pipeline::model::{NodeType, PortDef, ParamDef, ParamType, ParamDefault, SelectOption, ParamMap, param_text};
use crate::pipeline::preview::{predict_spec, strip_ext_spec, ext_of, rename_start};
use crate::text::decimal;

verus! {

/// The ids of the catalogue, in order.
pub open spec fn catalogue_ids() -> Seq<Seq<char>> {
    seq!["image_compress"@, "pdf_merge"@, "pdf_split"@, "pdf_compress"@, "rename"@, "dedup"@, "video_cut"@, "video_transcode"@, "video_to_gif"@, "extract_audio"@, "audio_convert"@, "office_convert"@, "archive_extract"@, "archive_compress"@]
}

/// The categories of the catalogue, in order.
pub open spec fn catalogue_categories() -> Seq<Seq<char>> {
    seq!["图片"@, "文档"@, "文档"@, "文档"@, "文件"@, "文件"@, "视频"@, "视频"@, "视频"@, "音频"@, "音频"@, "文档"@, "文件"@, "文件"@]
}

/// The catalogue lists every node type once: its ids are distinct.
pub proof fn catalogue_ids_distinct()
    ensures
        catalogue_ids().no_duplicates(),
{
    reveal_strlit("image_compress");
    reveal_strlit("pdf_merge");
    reveal_strlit("pdf_split");
    reveal_strlit("pdf_compress");
    reveal_strlit("rename");
    reveal_strlit("dedup");
    reveal_strlit("video_cut");
    reveal_strlit("video_transcode");
    reveal_strlit("video_to_gif");
    reveal_strlit("extract_audio");
    reveal_strlit("audio_convert");
    reveal_strlit("office_convert");
    reveal_strlit("archive_extract");
    reveal_strlit("archive_compress");
    let ids = catalogue_ids();
    assert forall|i: int, j: int| 0 <= i < ids.len() && 0 <= j < ids.len() && i != j implies ids[i] != ids[j] by {
        if ids[i] == ids[j] {
            assert(ids[i].len() == ids[j].len());
            assert(ids[i][0] == ids[j][0]);
            assert(ids[i][4] == ids[j][4]);
        }
    }
}

/// A port as plain values.
pub struct PortView {
    pub id: Seq<char>,
    pub label: Seq<char>,
    pub port_type: Seq<char>,
}

/// A parameter default as plain values.
pub enum DefaultView {
    Text(Seq<char>),
    Number(i64),
}

/// A parameter definition as plain values; each option is (value, label).
pub struct ParamView {
    pub key: Seq<char>,
    pub label: Seq<char>,
    pub param_type: ParamType,
    pub default: Option<DefaultView>,
    pub required: bool,
    pub help: Seq<char>,
    pub options: Seq<(Seq<char>, Seq<char>)>,
}

/// A node type as plain values.
pub struct NodeTypeView {
    pub id: Seq<char>,
    pub name: Seq<char>,
    pub category: Seq<char>,
    pub description: Seq<char>,
    pub icon: Seq<char>,
    pub inputs: Seq<PortView>,
    pub outputs: Seq<PortView>,
    pub params: Seq<ParamView>,
}

pub open spec fn port_view(p: PortDef) -> PortView {
    PortView { id: p.id@, label: p.label@, port_type: p.port_type@ }
}

pub open spec fn default_view(d: Option<ParamDefault>) -> Option<DefaultView> {
    match d {
        Some(ParamDefault::Text(s)) => Some(DefaultView::Text(s@)),
        Some(ParamDefault::Number(n)) => Some(DefaultView::Number(n)),
        None => None,
    }
}

pub open spec fn param_view(p: ParamDef) -> ParamView {
    ParamView {
        key: p.key@,
        label: p.label@,
        param_type: p.param_type,
        default: default_view(p.default),
        required: p.required,
        help: p.help@,
        options: p.options@.map_values(|o: SelectOption| (o.value@, o.label@)),
    }
}

pub open spec fn node_view(t: NodeType) -> NodeTypeView {
    NodeTypeView {
        id: t.id@,
        name: t.name@,
        category: t.category@,
        description: t.description@,
        icon: t.icon@,
        inputs: t.inputs@.map_values(|p: PortDef| port_view(p)),
        outputs: t.outputs@.map_values(|p: PortDef| port_view(p)),
        params: t.params@.map_values(|p: ParamDef| param_view(p)),
    }
}

pub open spec fn node_views(v: Seq<NodeType>) -> Seq<NodeTypeView> {
    v.map_values(|t: NodeType| node_view(t))
}

pub open spec fn port_spec(id: Seq<char>, label: Seq<char>, port_type: Seq<char>) -> PortView {
    PortView { id, label, port_type }
}

/// A whole-number slider from `min` to `max` in steps of `step`.
pub open spec fn slider_spec(key: Seq<char>, label: Seq<char>, min: i64, max: i64, step: i64, default: i64, required: bool, help: Seq<char>) -> ParamView {
    ParamView {
        key,
        label,
        param_type: ParamType::Slider { min, max, step },
        default: Some(DefaultView::Number(default)),
        required,
        help,
        options: Seq::empty(),
    }
}

/// A choice among (value, label) options.
pub open spec fn select_spec(key: Seq<char>, label: Seq<char>, options: Seq<(Seq<char>, Seq<char>)>, default: Seq<char>, required: bool, help: Seq<char>) -> ParamView {
    ParamView { key, label, param_type: ParamType::Select, default: Some(DefaultView::Text(default)), required, help, options }
}

/// A text field.
pub open spec fn string_spec(key: Seq<char>, label: Seq<char>, default: Seq<char>, required: bool, help: Seq<char>) -> ParamView {
    ParamView { key, label, param_type: ParamType::String, default: Some(DefaultView::Text(default)), required, help, options: Seq::empty() }
}

/// A number field.
pub open spec fn number_spec(key: Seq<char>, label: Seq<char>, default: Option<i64>, required: bool, help: Seq<char>) -> ParamView {
    ParamView {
        key,
        label,
        param_type: ParamType::Number,
        default: match default {
            Some(n) => Some(DefaultView::Number(n)),
            None => None,
        },
        required,
        help,
        options: Seq::empty(),
    }
}

/// A node type with one input port and one output port.
pub open spec fn entry_spec(
    id: Seq<char>,
    name: Seq<char>,
    category: Seq<char>,
    description: Seq<char>,
    icon: Seq<char>,
    input: PortView,
    output: PortView,
    params: Seq<ParamView>,
) -> NodeTypeView {
    NodeTypeView { id, name, category, description, icon, inputs: seq![input], outputs: seq![output], params }
}

/// The catalogue entry of `image_compress`.
pub open spec fn image_compress_entry() -> NodeTypeView {
    entry_spec(
        "image_compress"@,
        "图片压缩"@,
        "图片"@,
        "批量压缩图片并转换格式,支持调整尺寸"@,
        "Picture"@,
        port_spec("input"@, "图片文件"@, "file[]"@),
        port_spec("output"@, "压缩后图片"@, "file[]"@),
        seq![
            slider_spec("quality"@, "质量"@, 1, 100, 1, 80, false, "数值越大质量越高"@),
            select_spec("format"@, "输出格式"@, seq![("jpg"@, "JPG"@), ("png"@, "PNG"@), ("webp"@, "WebP"@), ("avif"@, "AVIF"@)], "webp"@, true, ""@),
            number_spec("maxWidth"@, "最大宽度(px)"@, None, false, "超过此宽度会等比缩放"@),
            number_spec("maxHeight"@, "最大高度(px)"@, None, false, "超过此高度会等比缩放"@),
        ],
    )
}

/// The catalogue entry of `pdf_merge`.
pub open spec fn pdf_merge_entry() -> NodeTypeView {
    entry_spec(
        "pdf_merge"@,
        "PDF 合并"@,
        "文档"@,
        "将多个 PDF 合并为一个文件"@,
        "Document"@,
        port_spec("input"@, "PDF 文件(多个)"@, "file[]"@),
        port_spec("output"@, "合并后 PDF"@, "file"@),
        seq![
            string_spec("outputName"@, "输出文件名"@, "merged.pdf"@, false, ""@),
        ],
    )
}

/// The catalogue entry of `pdf_split`.
pub open spec fn pdf_split_entry() -> NodeTypeView {
    entry_spec(
        "pdf_split"@,
        "PDF 拆分"@,
        "文档"@,
        "按页码范围将 PDF 拆分为多个文件"@,
        "Document"@,
        port_spec("input"@, "PDF 文件"@, "file"@),
        port_spec("output"@, "拆分后 PDF"@, "file[]"@),
        seq![
            string_spec("ranges"@, "页码范围"@, "1-5,6-10"@, true, "每行一个范围,如 1-5"@),
        ],
    )
}

/// The catalogue entry of `pdf_compress`.
pub open spec fn pdf_compress_entry() -> NodeTypeView {
    entry_spec(
        "pdf_compress"@,
        "PDF 压缩"@,
        "文档"@,
        "压缩 PDF 文件大小"@,
        "Document"@,
        port_spec("input"@, "PDF 文件"@, "file"@),
        port_spec("output"@, "压缩后 PDF"@, "file"@),
        Seq::empty(),
    )
}

/// The catalogue entry of `rename`.
pub open spec fn rename_entry() -> NodeTypeView {
    entry_spec(
        "rename"@,
        "批量重命名"@,
        "文件"@,
        "为文件批量添加前缀+序号+后缀"@,
        "Edit"@,
        port_spec("input"@, "文件"@, "file[]"@),
        port_spec("output"@, "重命名后文件"@, "file[]"@),
        seq![
            string_spec("prefix"@, "前缀"@, "img_"@, false, "文件名前缀,如 img_"@),
            number_spec("startNum"@, "起始数字"@, Some(1), false, "序号起始值,如 1 或 001"@),
            string_spec("suffix"@, "后缀"@, ""@, false, "文件名后缀(可选),如 _v2"@),
        ],
    )
}

/// The catalogue entry of `dedup`.
pub open spec fn dedup_entry() -> NodeTypeView {
    entry_spec(
        "dedup"@,
        "查重清理"@,
        "文件"@,
        "扫描目录找出重复文件并批量删除"@,
        "Search"@,
        port_spec("input"@, "扫描目录"@, "string"@),
        port_spec("output"@, "去重后文件列表"@, "file[]"@),
        seq![
            select_spec("keepStrategy"@, "保留策略"@, seq![("newest"@, "保留最新"@), ("largest"@, "保留最大"@), ("first"@, "保留第一个"@)], "newest"@, false, "每组重复文件保留哪一个,其余删除"@),
        ],
    )
}

/// The catalogue entry of `video_cut`.
pub open spec fn video_cut_entry() -> NodeTypeView {
    entry_spec(
        "video_cut"@,
        "视频剪切"@,
        "视频"@,
        "从视频中截取指定时间段"@,
        "VideoCamera"@,
        port_spec("input"@, "视频文件"@, "file"@),
        port_spec("output"@, "剪切后视频"@, "file"@),
        seq![
            string_spec("start"@, "开始时间"@, "00:00:00"@, true, "HH:MM:SS 或秒数"@),
            string_spec("end"@, "结束时间"@, "00:01:00"@, true, "HH:MM:SS 或秒数"@),
            select_spec("mode"@, "剪切模式"@, seq![("fast"@, "快速(-c copy)"@), ("accurate"@, "精确(重编码)"@)], "fast"@, false, "快速模式秒级完成但不精确到帧"@),
        ],
    )
}

/// The catalogue entry of `video_transcode`.
pub open spec fn video_transcode_entry() -> NodeTypeView {
    entry_spec(
        "video_transcode"@,
        "视频转码"@,
        "视频"@,
        "转换视频格式与编码"@,
        "VideoCamera"@,
        port_spec("input"@, "视频文件"@, "file"@),
        port_spec("output"@, "转码后视频"@, "file"@),
        seq![
            select_spec("videoCodec"@, "视频编码"@, seq![("h264"@, "H.264"@), ("h265"@, "H.265/HEVC"@), ("vp9"@, "VP9"@), ("av1"@, "AV1"@)], "h264"@, false, ""@),
            slider_spec("crf"@, "质量(CRF)"@, 0, 51, 1, 23, false, "越小质量越高,推荐 18-28"@),
            string_spec("encoder"@, "硬件编码器"@, ""@, false, "留空自动选择,如 h264_nvenc"@),
        ],
    )
}

/// The catalogue entry of `video_to_gif`.
pub open spec fn video_to_gif_entry() -> NodeTypeView {
    entry_spec(
        "video_to_gif"@,
        "视频转 GIF"@,
        "视频"@,
        "截取视频片段生成 GIF 动图"@,
        "VideoCamera"@,
        port_spec("input"@, "视频文件"@, "file"@),
        port_spec("output"@, "GIF 文件"@, "file"@),
        seq![
            string_spec("start"@, "开始时间"@, "00:00:00"@, true, ""@),
            number_spec("duration"@, "持续时长(秒)"@, Some(3), true, ""@),
            number_spec("fps"@, "帧率"@, Some(10), false, "默认 10fps"@),
            number_spec("width"@, "输出宽度(px)"@, Some(480), false, ""@),
        ],
    )
}

/// The catalogue entry of `extract_audio`.
pub open spec fn extract_audio_entry() -> NodeTypeView {
    entry_spec(
        "extract_audio"@,
        "提取音频"@,
        "音频"@,
        "从视频中提取音频轨道"@,
        "Headset"@,
        port_spec("input"@, "视频文件"@, "file"@),
        port_spec("output"@, "音频文件"@, "file"@),
        seq![
            select_spec("format"@, "音频格式"@, seq![("mp3"@, "MP3"@), ("aac"@, "AAC"@), ("flac"@, "FLAC"@), ("wav"@, "WAV"@), ("ogg"@, "OGG"@)], "mp3"@, false, ""@),
            select_spec("bitrate"@, "码率"@, seq![("128k"@, "128kbps"@), ("192k"@, "192kbps"@), ("256k"@, "256kbps"@), ("320k"@, "320kbps"@)], "192k"@, false, ""@),
        ],
    )
}

/// The catalogue entry of `audio_convert`.
pub open spec fn audio_convert_entry() -> NodeTypeView {
    entry_spec(
        "audio_convert"@,
        "音频转换"@,
        "音频"@,
        "音频格式互转(MP3/AAC/FLAC/WAV/OGG)"@,
        "Headset"@,
        port_spec("input"@, "音频文件"@, "file"@),
        port_spec("output"@, "转换后音频"@, "file"@),
        seq![
            select_spec("format"@, "目标格式"@, seq![("mp3"@, "MP3"@), ("aac"@, "AAC"@), ("flac"@, "FLAC"@), ("wav"@, "WAV"@), ("ogg"@, "OGG"@)], "mp3"@, true, ""@),
            select_spec("bitrate"@, "码率"@, seq![("128k"@, "128kbps"@), ("192k"@, "192kbps"@), ("256k"@, "256kbps"@), ("320k"@, "320kbps"@)], "192k"@, false, ""@),
        ],
    )
}

/// The catalogue entry of `office_convert`.
pub open spec fn office_convert_entry() -> NodeTypeView {
    entry_spec(
        "office_convert"@,
        "文档转换"@,
        "文档"@,
        "Office 文档互转(Word/Excel/PPT ↔ PDF)"@,
        "Document"@,
        port_spec("input"@, "Office 文档"@, "file"@),
        port_spec("output"@, "转换后文档"@, "file"@),
        seq![
            select_spec("targetFormat"@, "目标格式"@, seq![("pdf"@, "PDF"@), ("docx"@, "Word"@), ("html"@, "HTML"@)], "pdf"@, true, ""@),
        ],
    )
}

/// The catalogue entry of `archive_extract`.
pub open spec fn archive_extract_entry() -> NodeTypeView {
    entry_spec(
        "archive_extract"@,
        "解压"@,
        "文件"@,
        "批量解压 zip/7z/rar/tar.gz 文件"@,
        "FolderOpened"@,
        port_spec("input"@, "压缩包文件"@, "file[]"@),
        port_spec("output"@, "解压后目录"@, "string"@),
        Seq::empty(),
    )
}

/// The catalogue entry of `archive_compress`.
pub open spec fn archive_compress_entry() -> NodeTypeView {
    entry_spec(
        "archive_compress"@,
        "打包"@,
        "文件"@,
        "将文件批量打包为 zip"@,
        "Folder"@,
        port_spec("input"@, "待打包文件"@, "file[]"@),
        port_spec("output"@, "压缩包"@, "file"@),
        seq![
            select_spec("format"@, "压缩格式"@, seq![("zip"@, "ZIP"@)], "zip"@, false, ""@),
            string_spec("password"@, "密码(可选)"@, ""@, false, "留空则不加密"@),
        ],
    )
}

/// The whole catalogue, in order.
pub open spec fn catalogue() -> Seq<NodeTypeView> {
    seq![
        image_compress_entry(),
        pdf_merge_entry(),
        pdf_split_entry(),
        pdf_compress_entry(),
        rename_entry(),
        dedup_entry(),
        video_cut_entry(),
        video_transcode_entry(),
        video_to_gif_entry(),
        extract_audio_entry(),
        audio_convert_entry(),
        office_convert_entry(),
        archive_extract_entry(),
        archive_compress_entry(),
    ]
}

/// The port types a port may have: "file", "file[]", "string" or "number".
pub open spec fn documented_port_type(t: Seq<char>) -> bool {
    t == "file"@ || t == "file[]"@ || t == "string"@ || t == "number"@
}

/// Every port of the catalogue has one of the documented port types.
pub proof fn catalogue_port_types_documented()
    ensures
        forall|i: int, j: int| 0 <= i < catalogue().len() && 0 <= j < catalogue()[i].inputs.len()
            ==> documented_port_type(#[trigger] catalogue()[i].inputs[j].port_type),
        forall|i: int, j: int| 0 <= i < catalogue().len() && 0 <= j < catalogue()[i].outputs.len()
            ==> documented_port_type(#[trigger] catalogue()[i].outputs[j].port_type),
{
    let c = catalogue();
    assert forall|i: int, j: int| 0 <= i < c.len() && 0 <= j < c[i].inputs.len()
        implies documented_port_type(#[trigger] c[i].inputs[j].port_type) by {
        assert(c[i].inputs.len() == 1);
    }
    assert forall|i: int, j: int| 0 <= i < c.len() && 0 <= j < c[i].outputs.len()
        implies documented_port_type(#[trigger] c[i].outputs[j].port_type) by {
        assert(c[i].outputs.len() == 1);
    }
}

fn port(id: &str, label: &str, port_type: &str) -> (p: PortDef)
    ensures
        port_view(p) == port_spec(id@, label@, port_type@),
{
    PortDef { id: String::from_str(id), label: String::from_str(label), port_type: String::from_str(port_type) }
}

fn one_port(id: &str, label: &str, port_type: &str) -> (v: Vec<PortDef>)
    ensures
        v@.map_values(|p: PortDef| port_view(p)) == seq![port_spec(id@, label@, port_type@)],
{
    let mut v: Vec<PortDef> = Vec::new();
    v.push(port(id, label, port_type));
    assert(v@.map_values(|p: PortDef| port_view(p)) =~= seq![port_spec(id@, label@, port_type@)]);
    v
}

/// A whole-number slider parameter.
fn slider_param(key: &str, label: &str, min: i64, max: i64, step: i64, default: i64, required: bool, help: &str) -> (p: ParamDef)
    ensures
        param_view(p) == slider_spec(key@, label@, min, max, step, default, required, help@),
{
    let p = ParamDef {
        key: String::from_str(key),
        label: String::from_str(label),
        param_type: ParamType::Slider { min, max, step },
        default: Some(ParamDefault::Number(default)),
        required,
        help: String::from_str(help),
        options: Vec::new(),
    };
    assert(param_view(p).options =~= Seq::<(Seq<char>, Seq<char>)>::empty());
    p
}

/// A select parameter with the given (value, label) choices.
fn select_param(key: &str, label: &str, options: Vec<SelectOption>, default: &str, required: bool, help: &str) -> (p: ParamDef)
    ensures
        param_view(p) == select_spec(key@, label@, options@.map_values(|o: SelectOption| (o.value@, o.label@)), default@, required, help@),
{
    ParamDef {
        key: String::from_str(key),
        label: String::from_str(label),
        param_type: ParamType::Select,
        default: Some(ParamDefault::Text(String::from_str(default))),
        required,
        help: String::from_str(help),
        options,
    }
}

/// Appends the choice (value, label) to a list of select options.
fn choice(options: &mut Vec<SelectOption>, value: &str, label: &str)
    ensures
        final(options)@.map_values(|o: SelectOption| (o.value@, o.label@))
            == old(options)@.map_values(|o: SelectOption| (o.value@, o.label@)).push((value@, label@)),
{
    options.push(SelectOption { value: String::from_str(value), label: String::from_str(label) });
    assert(final(options)@.map_values(|o: SelectOption| (o.value@, o.label@))
        =~= old(options)@.map_values(|o: SelectOption| (o.value@, o.label@)).push((value@, label@)));
}

/// A text parameter.
fn string_param(key: &str, label: &str, default: &str, required: bool, help: &str) -> (p: ParamDef)
    ensures
        param_view(p) == string_spec(key@, label@, default@, required, help@),
{
    let p = ParamDef {
        key: String::from_str(key),
        label: String::from_str(label),
        param_type: ParamType::String,
        default: Some(ParamDefault::Text(String::from_str(default))),
        required,
        help: String::from_str(help),
        options: Vec::new(),
    };
    assert(param_view(p).options =~= Seq::<(Seq<char>, Seq<char>)>::empty());
    p
}

/// A number parameter.
fn number_param(key: &str, label: &str, default: Option<i64>, required: bool, help: &str) -> (p: ParamDef)
    ensures
        param_view(p) == number_spec(key@, label@, default, required, help@),
{
    let p = ParamDef {
        key: String::from_str(key),
        label: String::from_str(label),
        param_type: ParamType::Number,
        default: match default {
            Some(n) => Some(ParamDefault::Number(n)),
            None => None,
        },
        required,
        help: String::from_str(help),
        options: Vec::new(),
    };
    assert(param_view(p).options =~= Seq::<(Seq<char>, Seq<char>)>::empty());
    p
}

/// The node type `image_compress`.
fn image_compress_type() -> (t: NodeType)
    ensures
        node_view(t) == image_compress_entry(),
{
    let mut params: Vec<ParamDef> = Vec::new();
    params.push(slider_param("quality", "质量", 1, 100, 1, 80, false, "数值越大质量越高"));
    let mut options: Vec<SelectOption> = Vec::new();
    choice(&mut options, "jpg", "JPG");
    choice(&mut options, "png", "PNG");
    choice(&mut options, "webp", "WebP");
    choice(&mut options, "avif", "AVIF");
    assert(options@.map_values(|o: SelectOption| (o.value@, o.label@)) =~= seq![("jpg"@, "JPG"@), ("png"@, "PNG"@), ("webp"@, "WebP"@), ("avif"@, "AVIF"@)]);
    params.push(select_param("format", "输出格式", options, "webp", true, ""));
    params.push(number_param("maxWidth", "最大宽度(px)", None, false, "超过此宽度会等比缩放"));
    params.push(number_param("maxHeight", "最大高度(px)", None, false, "超过此高度会等比缩放"));
    let t = NodeType {
        id: String::from_str("image_compress"),
        name: String::from_str("图片压缩"),
        category: String::from_str("图片"),
        description: String::from_str("批量压缩图片并转换格式,支持调整尺寸"),
        icon: String::from_str("Picture"),
        inputs: one_port("input", "图片文件", "file[]"),
        outputs: one_port("output", "压缩后图片", "file[]"),
        params,
    };
    assert(node_view(t).params =~= image_compress_entry().params);
    t
}

/// The node type `pdf_merge`.
fn pdf_merge_type() -> (t: NodeType)
    ensures
        node_view(t) == pdf_merge_entry(),
{
    let mut params: Vec<ParamDef> = Vec::new();
    params.push(string_param("outputName", "输出文件名", "merged.pdf", false, ""));
    let t = NodeType {
        id: String::from_str("pdf_merge"),
        name: String::from_str("PDF 合并"),
        category: String::from_str("文档"),
        description: String::from_str("将多个 PDF 合并为一个文件"),
        icon: String::from_str("Document"),
        inputs: one_port("input", "PDF 文件(多个)", "file[]"),
        outputs: one_port("output", "合并后 PDF", "file"),
        params,
    };
    assert(node_view(t).params =~= pdf_merge_entry().params);
    t
}

/// The node type `pdf_split`.
fn pdf_split_type() -> (t: NodeType)
    ensures
        node_view(t) == pdf_split_entry(),
{
    let mut params: Vec<ParamDef> = Vec::new();
    params.push(string_param("ranges", "页码范围", "1-5,6-10", true, "每行一个范围,如 1-5"));
    let t = NodeType {
        id: String::from_str("pdf_split"),
        name: String::from_str("PDF 拆分"),
        category: String::from_str("文档"),
        description: String::from_str("按页码范围将 PDF 拆分为多个文件"),
        icon: String::from_str("Document"),
        inputs: one_port("input", "PDF 文件", "file"),
        outputs: one_port("output", "拆分后 PDF", "file[]"),
        params,
    };
    assert(node_view(t).params =~= pdf_split_entry().params);
    t
}

/// The node type `pdf_compress`.
fn pdf_compress_type() -> (t: NodeType)
    ensures
        node_view(t) == pdf_compress_entry(),
{
    let mut params: Vec<ParamDef> = Vec::new();
    let t = NodeType {
        id: String::from_str("pdf_compress"),
        name: String::from_str("PDF 压缩"),
        category: String::from_str("文档"),
        description: String::from_str("压缩 PDF 文件大小"),
        icon: String::from_str("Document"),
        inputs: one_port("input", "PDF 文件", "file"),
        outputs: one_port("output", "压缩后 PDF", "file"),
        params,
    };
    assert(node_view(t).params =~= pdf_compress_entry().params);
    t
}

/// The node type `rename`.
fn rename_type() -> (t: NodeType)
    ensures
        node_view(t) == rename_entry(),
{
    let mut params: Vec<ParamDef> = Vec::new();
    params.push(string_param("prefix", "前缀", "img_", false, "文件名前缀,如 img_"));
    params.push(number_param("startNum", "起始数字", Some(1), false, "序号起始值,如 1 或 001"));
    params.push(string_param("suffix", "后缀", "", false, "文件名后缀(可选),如 _v2"));
    let t = NodeType {
        id: String::from_str("rename"),
        name: String::from_str("批量重命名"),
        category: String::from_str("文件"),
        description: String::from_str("为文件批量添加前缀+序号+后缀"),
        icon: String::from_str("Edit"),
        inputs: one_port("input", "文件", "file[]"),
        outputs: one_port("output", "重命名后文件", "file[]"),
        params,
    };
    assert(node_view(t).params =~= rename_entry().params);
    t
}

/// The node type `dedup`.
fn dedup_type() -> (t: NodeType)
    ensures
        node_view(t) == dedup_entry(),
{
    let mut params: Vec<ParamDef> = Vec::new();
    let mut options: Vec<SelectOption> = Vec::new();
    choice(&mut options, "newest", "保留最新");
    choice(&mut options, "largest", "保留最大");
    choice(&mut options, "first", "保留第一个");
    assert(options@.map_values(|o: SelectOption| (o.value@, o.label@)) =~= seq![("newest"@, "保留最新"@), ("largest"@, "保留最大"@), ("first"@, "保留第一个"@)]);
    params.push(select_param("keepStrategy", "保留策略", options, "newest", false, "每组重复文件保留哪一个,其余删除"));
    let t = NodeType {
        id: String::from_str("dedup"),
        name: String::from_str("查重清理"),
        category: String::from_str("文件"),
        description: String::from_str("扫描目录找出重复文件并批量删除"),
        icon: String::from_str("Search"),
        inputs: one_port("input", "扫描目录", "string"),
        outputs: one_port("output", "去重后文件列表", "file[]"),
        params,
    };
    assert(node_view(t).params =~= dedup_entry().params);
    t
}

/// The node type `video_cut`.
fn video_cut_type() -> (t: NodeType)
    ensures
        node_view(t) == video_cut_entry(),
{
    let mut params: Vec<ParamDef> = Vec::new();
    params.push(string_param("start", "开始时间", "00:00:00", true, "HH:MM:SS 或秒数"));
    params.push(string_param("end", "结束时间", "00:01:00", true, "HH:MM:SS 或秒数"));
    let mut options: Vec<SelectOption> = Vec::new();
    choice(&mut options, "fast", "快速(-c copy)");
    choice(&mut options, "accurate", "精确(重编码)");
    assert(options@.map_values(|o: SelectOption| (o.value@, o.label@)) =~= seq![("fast"@, "快速(-c copy)"@), ("accurate"@, "精确(重编码)"@)]);
    params.push(select_param("mode", "剪切模式", options, "fast", false, "快速模式秒级完成但不精确到帧"));
    let t = NodeType {
        id: String::from_str("video_cut"),
        name: String::from_str("视频剪切"),
        category: String::from_str("视频"),
        description: String::from_str("从视频中截取指定时间段"),
        icon: String::from_str("VideoCamera"),
        inputs: one_port("input", "视频文件", "file"),
        outputs: one_port("output", "剪切后视频", "file"),
        params,
    };
    assert(node_view(t).params =~= video_cut_entry().params);
    t
}

/// The node type `video_transcode`.
fn video_transcode_type() -> (t: NodeType)
    ensures
        node_view(t) == video_transcode_entry(),
{
    let mut params: Vec<ParamDef> = Vec::new();
    let mut options: Vec<SelectOption> = Vec::new();
    choice(&mut options, "h264", "H.264");
    choice(&mut options, "h265", "H.265/HEVC");
    choice(&mut options, "vp9", "VP9");
    choice(&mut options, "av1", "AV1");
    assert(options@.map_values(|o: SelectOption| (o.value@, o.label@)) =~= seq![("h264"@, "H.264"@), ("h265"@, "H.265/HEVC"@), ("vp9"@, "VP9"@), ("av1"@, "AV1"@)]);
    params.push(select_param("videoCodec", "视频编码", options, "h264", false, ""));
    params.push(slider_param("crf", "质量(CRF)", 0, 51, 1, 23, false, "越小质量越高,推荐 18-28"));
    params.push(string_param("encoder", "硬件编码器", "", false, "留空自动选择,如 h264_nvenc"));
    let t = NodeType {
        id: String::from_str("video_transcode"),
        name: String::from_str("视频转码"),
        category: String::from_str("视频"),
        description: String::from_str("转换视频格式与编码"),
        icon: String::from_str("VideoCamera"),
        inputs: one_port("input", "视频文件", "file"),
        outputs: one_port("output", "转码后视频", "file"),
        params,
    };
    assert(node_view(t).params =~= video_transcode_entry().params);
    t
}

/// The node type `video_to_gif`.
fn video_to_gif_type() -> (t: NodeType)
    ensures
        node_view(t) == video_to_gif_entry(),
{
    let mut params: Vec<ParamDef> = Vec::new();
    params.push(string_param("start", "开始时间", "00:00:00", true, ""));
    params.push(number_param("duration", "持续时长(秒)", Some(3), true, ""));
    params.push(number_param("fps", "帧率", Some(10), false, "默认 10fps"));
    params.push(number_param("width", "输出宽度(px)", Some(480), false, ""));
    let t = NodeType {
        id: String::from_str("video_to_gif"),
        name: String::from_str("视频转 GIF"),
        category: String::from_str("视频"),
        description: String::from_str("截取视频片段生成 GIF 动图"),
        icon: String::from_str("VideoCamera"),
        inputs: one_port("input", "视频文件", "file"),
        outputs: one_port("output", "GIF 文件", "file"),
        params,
    };
    assert(node_view(t).params =~= video_to_gif_entry().params);
    t
}

/// The node type `extract_audio`.
fn extract_audio_type() -> (t: NodeType)
    ensures
        node_view(t) == extract_audio_entry(),
{
    let mut params: Vec<ParamDef> = Vec::new();
    let mut options: Vec<SelectOption> = Vec::new();
    choice(&mut options, "mp3", "MP3");
    choice(&mut options, "aac", "AAC");
    choice(&mut options, "flac", "FLAC");
    choice(&mut options, "wav", "WAV");
    choice(&mut options, "ogg", "OGG");
    assert(options@.map_values(|o: SelectOption| (o.value@, o.label@)) =~= seq![("mp3"@, "MP3"@), ("aac"@, "AAC"@), ("flac"@, "FLAC"@), ("wav"@, "WAV"@), ("ogg"@, "OGG"@)]);
    params.push(select_param("format", "音频格式", options, "mp3", false, ""));
    let mut options: Vec<SelectOption> = Vec::new();
    choice(&mut options, "128k", "128kbps");
    choice(&mut options, "192k", "192kbps");
    choice(&mut options, "256k", "256kbps");
    choice(&mut options, "320k", "320kbps");
    assert(options@.map_values(|o: SelectOption| (o.value@, o.label@)) =~= seq![("128k"@, "128kbps"@), ("192k"@, "192kbps"@), ("256k"@, "256kbps"@), ("320k"@, "320kbps"@)]);
    params.push(select_param("bitrate", "码率", options, "192k", false, ""));
    let t = NodeType {
        id: String::from_str("extract_audio"),
        name: String::from_str("提取音频"),
        category: String::from_str("音频"),
        description: String::from_str("从视频中提取音频轨道"),
        icon: String::from_str("Headset"),
        inputs: one_port("input", "视频文件", "file"),
        outputs: one_port("output", "音频文件", "file"),
        params,
    };
    assert(node_view(t).params =~= extract_audio_entry().params);
    t
}

/// The node type `audio_convert`.
fn audio_convert_type() -> (t: NodeType)
    ensures
        node_view(t) == audio_convert_entry(),
{
    let mut params: Vec<ParamDef> = Vec::new();
    let mut options: Vec<SelectOption> = Vec::new();
    choice(&mut options, "mp3", "MP3");
    choice(&mut options, "aac", "AAC");
    choice(&mut options, "flac", "FLAC");
    choice(&mut options, "wav", "WAV");
    choice(&mut options, "ogg", "OGG");
    assert(options@.map_values(|o: SelectOption| (o.value@, o.label@)) =~= seq![("mp3"@, "MP3"@), ("aac"@, "AAC"@), ("flac"@, "FLAC"@), ("wav"@, "WAV"@), ("ogg"@, "OGG"@)]);
    params.push(select_param("format", "目标格式", options, "mp3", true, ""));
    let mut options: Vec<SelectOption> = Vec::new();
    choice(&mut options, "128k", "128kbps");
    choice(&mut options, "192k", "192kbps");
    choice(&mut options, "256k", "256kbps");
    choice(&mut options, "320k", "320kbps");
    assert(options@.map_values(|o: SelectOption| (o.value@, o.label@)) =~= seq![("128k"@, "128kbps"@), ("192k"@, "192kbps"@), ("256k"@, "256kbps"@), ("320k"@, "320kbps"@)]);
    params.push(select_param("bitrate", "码率", options, "192k", false, ""));
    let t = NodeType {
        id: String::from_str("audio_convert"),
        name: String::from_str("音频转换"),
        category: String::from_str("音频"),
        description: String::from_str("音频格式互转(MP3/AAC/FLAC/WAV/OGG)"),
        icon: String::from_str("Headset"),
        inputs: one_port("input", "音频文件", "file"),
        outputs: one_port("output", "转换后音频", "file"),
        params,
    };
    assert(node_view(t).params =~= audio_convert_entry().params);
    t
}

/// The node type `office_convert`.
fn office_convert_type() -> (t: NodeType)
    ensures
        node_view(t) == office_convert_entry(),
{
    let mut params: Vec<ParamDef> = Vec::new();
    let mut options: Vec<SelectOption> = Vec::new();
    choice(&mut options, "pdf", "PDF");
    choice(&mut options, "docx", "Word");
    choice(&mut options, "html", "HTML");
    assert(options@.map_values(|o: SelectOption| (o.value@, o.label@)) =~= seq![("pdf"@, "PDF"@), ("docx"@, "Word"@), ("html"@, "HTML"@)]);
    params.push(select_param("targetFormat", "目标格式", options, "pdf", true, ""));
    let t = NodeType {
        id: String::from_str("office_convert"),
        name: String::from_str("文档转换"),
        category: String::from_str("文档"),
        description: String::from_str("Office 文档互转(Word/Excel/PPT ↔ PDF)"),
        icon: String::from_str("Document"),
        inputs: one_port("input", "Office 文档", "file"),
        outputs: one_port("output", "转换后文档", "file"),
        params,
    };
    assert(node_view(t).params =~= office_convert_entry().params);
    t
}

/// The node type `archive_extract`.
fn archive_extract_type() -> (t: NodeType)
    ensures
        node_view(t) == archive_extract_entry(),
{
    let mut params: Vec<ParamDef> = Vec::new();
    let t = NodeType {
        id: String::from_str("archive_extract"),
        name: String::from_str("解压"),
        category: String::from_str("文件"),
        description: String::from_str("批量解压 zip/7z/rar/tar.gz 文件"),
        icon: String::from_str("FolderOpened"),
        inputs: one_port("input", "压缩包文件", "file[]"),
        outputs: one_port("output", "解压后目录", "string"),
        params,
    };
    assert(node_view(t).params =~= archive_extract_entry().params);
    t
}

/// The node type `archive_compress`.
fn archive_compress_type() -> (t: NodeType)
    ensures
        node_view(t) == archive_compress_entry(),
{
    let mut params: Vec<ParamDef> = Vec::new();
    let mut options: Vec<SelectOption> = Vec::new();
    choice(&mut options, "zip", "ZIP");
    assert(options@.map_values(|o: SelectOption| (o.value@, o.label@)) =~= seq![("zip"@, "ZIP"@)]);
    params.push(select_param("format", "压缩格式", options, "zip", false, ""));
    params.push(string_param("password", "密码(可选)", "", false, "留空则不加密"));
    let t = NodeType {
        id: String::from_str("archive_compress"),
        name: String::from_str("打包"),
        category: String::from_str("文件"),
        description: String::from_str("将文件批量打包为 zip"),
        icon: String::from_str("Folder"),
        inputs: one_port("input", "待打包文件", "file[]"),
        outputs: one_port("output", "压缩包", "file"),
        params,
    };
    assert(node_view(t).params =~= archive_compress_entry().params);
    t
}

/// All node types the engine offers, in catalogue order.
pub fn get_all_node_types() -> (v: Vec<NodeType>)
    ensures
        node_views(v@) == catalogue(),
        v.len() == catalogue_ids().len(),
        forall|i: int| 0 <= i < v.len() ==> {
            &&& #[trigger] v@[i].id@ == catalogue_ids()[i]
            &&& v@[i].category@ == catalogue_categories()[i]
        },
{
    let mut v: Vec<NodeType> = Vec::new();
    v.push(image_compress_type());
    v.push(pdf_merge_type());
    v.push(pdf_split_type());
    v.push(pdf_compress_type());
    v.push(rename_type());
    v.push(dedup_type());
    v.push(video_cut_type());
    v.push(video_transcode_type());
    v.push(video_to_gif_type());
    v.push(extract_audio_type());
    v.push(audio_convert_type());
    v.push(office_convert_type());
    v.push(archive_extract_type());
    v.push(archive_compress_type());
    assert(node_views(v@) =~= catalogue());
    proof {
        lemma_catalogue_ids_categories();
        assert forall|i: int| 0 <= i < v.len() implies {
            &&& #[trigger] v@[i].id@ == catalogue_ids()[i]
            &&& v@[i].category@ == catalogue_categories()[i]
        } by {
            assert(node_views(v@)[i] == catalogue()[i]);
        }
    }
    v
}

/// The ids and categories of the catalogue are those of its entries.
proof fn lemma_catalogue_ids_categories()
    ensures
        catalogue().len() == catalogue_ids().len(),
        forall|i: int| 0 <= i < catalogue().len() ==> #[trigger] catalogue()[i].id == catalogue_ids()[i] && catalogue()[i].category == catalogue_categories()[i],
{
}

/// The node types offered to the editor.
pub fn get_node_types() -> (v: Vec<NodeType>)
    ensures
        node_views(v@) == catalogue(),
        v.len() == catalogue_ids().len(),
        forall|i: int| 0 <= i < v.len() ==> #[trigger] v@[i].id@ == catalogue_ids()[i] && v@[i].category@ == catalogue_categories()[i],
{
    get_all_node_types()
}

/// Node types of one category.
pub struct NodeTypeGroup {
    pub category: String,
    pub items: Vec<NodeType>,
}

/// The entries of `s` of category `c`, in order.
pub open spec fn of_category(s: Seq<NodeType>, c: Seq<char>) -> Seq<NodeType>
    decreases s.len(),
{
    if s.len() == 0 {
        Seq::empty()
    } else {
        (if s[0].category@ == c {
            seq![s[0]]
        } else {
            Seq::empty()
        }) + of_category(s.drop_first(), c)
    }
}

/// `groups` splits `types` by category: one non-empty group per category,
/// holding exactly that category's types in their order.
pub open spec fn is_grouping(types: Seq<NodeType>, groups: Seq<NodeTypeGroup>) -> bool {
    &&& forall|i: int, j: int| 0 <= i < groups.len() && 0 <= j < groups.len() && i != j ==> groups[i].category@ != groups[j].category@
    &&& forall|i: int| 0 <= i < groups.len() ==> (#[trigger] groups[i]).items@ == of_category(types, groups[i].category@)
    &&& forall|i: int| 0 <= i < groups.len() ==> (#[trigger] groups[i]).items.len() > 0
    &&& forall|k: int| 0 <= k < types.len() ==> exists|i: int| 0 <= i < groups.len() && (#[trigger] groups[i]).category@ == (#[trigger] types[k]).category@
}

proof fn lemma_of_category_absent(s: Seq<NodeType>, c: Seq<char>)
    requires
        forall|k: int| 0 <= k < s.len() ==> (#[trigger] s[k]).category@ != c,
    ensures
        of_category(s, c) == Seq::<NodeType>::empty(),
    decreases s.len(),
{
    if s.len() > 0 {
        assert forall|k: int| 0 <= k < s.drop_first().len() implies (#[trigger] s.drop_first()[k]).category@ != c by {
            assert(s.drop_first()[k] == s[k + 1]);
        }
        lemma_of_category_absent(s.drop_first(), c);
        assert(s[0].category@ != c);
        assert(Seq::<NodeType>::empty() + Seq::<NodeType>::empty() =~= Seq::<NodeType>::empty());
    }
}

fn find_group(groups: &Vec<NodeTypeGroup>, c: &String) -> (r: Option<usize>)
    ensures
        match r {
            Some(i) => i < groups.len() && groups@[i as int].category@ == c@,
            None => forall|i: int| 0 <= i < groups.len() ==> groups@[i].category@ != c@,
        },
{
    let mut i: usize = 0;
    while i < groups.len()
        invariant
            i <= groups.len(),
            forall|k: int| 0 <= k < i ==> groups@[k].category@ != c@,
        decreases groups.len() - i,
    {
        if groups[i].category == *c {
            return Some(i);
        }
        i = i + 1;
    }
    None
}

/// Splits node types by category.
pub fn group_by_category(types: Vec<NodeType>) -> (groups: Vec<NodeTypeGroup>)
    ensures
        is_grouping(types@, groups@),
{
    let ghost all = types@;
    let mut rest = types;
    let mut groups: Vec<NodeTypeGroup> = Vec::new();
    assert(all.skip(all.len() as int) =~= Seq::<NodeType>::empty());
    while rest.len() > 0
        invariant
            rest@ == all.take(rest.len() as int),
            rest.len() <= all.len(),
            is_grouping(all.skip(rest.len() as int), groups@),
        decreases rest.len(),
    {
        let ghost n = rest.len() as int;
        let ghost old_groups = groups@;
        let t = rest.pop().unwrap();
        let ghost suffix = all.skip(n);
        let ghost new_suffix = all.skip(n - 1);
        assert(t == all[n - 1]);
        assert(rest@ =~= all.take(n - 1));
        assert(new_suffix[0] == t);
        assert(new_suffix.drop_first() =~= suffix);
        let found = find_group(&groups, &t.category);
        match found {
            Some(g) => {
                let ghost cat = t.category@;
                let mut grp = groups.remove(g);
                grp.items.insert(0, t);
                groups.insert(g, grp);
                proof {
                    assert(groups@ =~= old_groups.update(g as int, groups@[g as int]));
                    assert(groups@[g as int].items@ =~= seq![t] + old_groups[g as int].items@);
                    assert forall|i: int| 0 <= i < groups@.len() implies (#[trigger] groups@[i]).items@ == of_category(new_suffix, groups@[i].category@) by {
                        if i != g {
                            assert(groups@[i] == old_groups[i]);
                            assert(old_groups[i].category@ != cat);
                        }
                    }
                    assert forall|k: int| 0 <= k < new_suffix.len() implies exists|i: int| 0 <= i < groups@.len() && (#[trigger] groups@[i]).category@ == (#[trigger] new_suffix[k]).category@ by {
                        if k == 0 {
                            assert(groups@[g as int].category@ == new_suffix[k].category@);
                        } else {
                            assert(new_suffix[k] == suffix[k - 1]);
                            let i = choose|i: int| 0 <= i < old_groups.len() && (#[trigger] old_groups[i]).category@ == suffix[k - 1].category@;
                            assert(groups@[i].category@ == old_groups[i].category@);
                        }
                    }
                }
            },
            None => {
                let ghost cat = t.category@;
                proof {
                    assert forall|k: int| 0 <= k < suffix.len() implies (#[trigger] suffix[k]).category@ != cat by {
                        let i = choose|i: int| 0 <= i < old_groups.len() && (#[trigger] old_groups[i]).category@ == suffix[k].category@;
                    }
                    lemma_of_category_absent(suffix, cat);
                }
                let c = t.category.clone();
                let mut items: Vec<NodeType> = Vec::new();
                items.push(t);
                groups.push(NodeTypeGroup { category: c, items });
                proof {
                    let last = groups@.len() - 1;
                    assert(groups@[last].items@ =~= seq![t] + Seq::<NodeType>::empty());
                    assert forall|i: int| 0 <= i < groups@.len() implies (#[trigger] groups@[i]).items@ == of_category(new_suffix, groups@[i].category@) by {
                        if i != last {
                            assert(groups@[i] == old_groups[i]);
                            assert(old_groups[i].category@ != cat);
                        }
                    }
                    assert forall|k: int| 0 <= k < new_suffix.len() implies exists|i: int| 0 <= i < groups@.len() && (#[trigger] groups@[i]).category@ == (#[trigger] new_suffix[k]).category@ by {
                        if k == 0 {
                            assert(groups@[last].category@ == new_suffix[k].category@);
                        } else {
                            assert(new_suffix[k] == suffix[k - 1]);
                            let i = choose|i: int| 0 <= i < old_groups.len() && (#[trigger] old_groups[i]).category@ == suffix[k - 1].category@;
                            assert(groups@[i] == old_groups[i]);
                        }
                    }
                    assert forall|i: int| 0 <= i < groups@.len() implies (#[trigger] groups@[i]).items.len() > 0 by {
                        if i != last {
                            assert(groups@[i] == old_groups[i]);
                        }
                    }
                }
            },
        }
    }
    assert(all.skip(0) =~= all);
    groups
}

/// The items of the groups, one group after another.
pub open spec fn group_items(groups: Seq<NodeTypeGroup>) -> Seq<NodeType>
    decreases groups.len(),
{
    if groups.len() == 0 {
        Seq::empty()
    } else {
        group_items(groups.drop_last()) + groups.last().items@
    }
}

/// How many times `t` occurs in `s`.
pub open spec fn occurrences(s: Seq<NodeType>, t: NodeType) -> nat
    decreases s.len(),
{
    if s.len() == 0 {
        0
    } else {
        (if s[0] == t { 1nat } else { 0nat }) + occurrences(s.drop_first(), t)
    }
}

proof fn lemma_occurrences_concat(a: Seq<NodeType>, b: Seq<NodeType>, t: NodeType)
    ensures
        occurrences(a + b, t) == occurrences(a, t) + occurrences(b, t),
    decreases a.len(),
{
    if a.len() == 0 {
        assert(a + b =~= b);
    } else {
        assert((a + b).drop_first() =~= a.drop_first() + b);
        assert((a + b)[0] == a[0]);
        lemma_occurrences_concat(a.drop_first(), b, t);
    }
}

proof fn lemma_occurrences_of_category(s: Seq<NodeType>, c: Seq<char>, t: NodeType)
    ensures
        occurrences(of_category(s, c), t) == if t.category@ == c { occurrences(s, t) } else { 0 },
    decreases s.len(),
{
    if s.len() > 0 {
        lemma_occurrences_of_category(s.drop_first(), c, t);
        let head: Seq<NodeType> = if s[0].category@ == c { seq![s[0]] } else { Seq::empty() };
        lemma_occurrences_concat(head, of_category(s.drop_first(), c), t);
        assert(of_category(s, c) == head + of_category(s.drop_first(), c));
        if s[0].category@ == c {
            assert(head.drop_first() =~= Seq::<NodeType>::empty());
            assert(occurrences(head.drop_first(), t) == 0);
            assert(head.len() == 1 && head[0] == s[0]);
            assert(occurrences(head, t) == if s[0] == t { 1nat } else { 0nat });
        } else {
            assert(occurrences(head, t) == 0);
            if t.category@ == c {
                assert(s[0] != t);
            }
        }
    }
}

proof fn lemma_of_category_items(s: Seq<NodeType>, c: Seq<char>)
    ensures
        forall|k: int| 0 <= k < of_category(s, c).len() ==> (#[trigger] of_category(s, c)[k]).category@ == c,
    decreases s.len(),
{
    if s.len() > 0 {
        lemma_of_category_items(s.drop_first(), c);
        let head: Seq<NodeType> = if s[0].category@ == c { seq![s[0]] } else { Seq::empty() };
        let rest = of_category(s.drop_first(), c);
        assert(of_category(s, c) == head + rest);
        assert forall|k: int| 0 <= k < of_category(s, c).len() implies (#[trigger] of_category(s, c)[k]).category@ == c by {
            if k >= head.len() {
                assert(of_category(s, c)[k] == rest[k - head.len()]);
            }
        }
    }
}

proof fn lemma_occurs_somewhere(s: Seq<NodeType>, t: NodeType)
    requires
        occurrences(s, t) > 0,
    ensures
        exists|k: int| 0 <= k < s.len() && s[k] == t,
    decreases s.len(),
{
    if s[0] != t {
        lemma_occurs_somewhere(s.drop_first(), t);
        let k = choose|k: int| 0 <= k < s.drop_first().len() && s.drop_first()[k] == t;
        assert(s[k + 1] == t);
    } else {
        assert(s[0] == t);
    }
}

proof fn lemma_group_prefix(types: Seq<NodeType>, groups: Seq<NodeTypeGroup>, k: int, t: NodeType)
    requires
        is_grouping(types, groups),
        0 <= k <= groups.len(),
    ensures
        occurrences(group_items(groups.take(k)), t) == if exists|i: int| 0 <= i < k && (#[trigger] groups[i]).category@ == t.category@ {
            occurrences(types, t)
        } else {
            0
        },
    decreases k,
{
    if k == 0 {
        assert(groups.take(0) =~= Seq::<NodeTypeGroup>::empty());
    } else {
        lemma_group_prefix(types, groups, k - 1, t);
        let g = groups[k - 1];
        assert(groups.take(k).drop_last() =~= groups.take(k - 1));
        assert(groups.take(k).last() == g);
        lemma_occurrences_concat(group_items(groups.take(k - 1)), g.items@, t);
        lemma_occurrences_of_category(types, g.category@, t);
        assert(g.items@ == of_category(types, g.category@));
        if g.category@ == t.category@ {
            assert forall|i: int| 0 <= i < k - 1 implies (#[trigger] groups[i]).category@ != t.category@ by {
                assert(groups[i].category@ != groups[k - 1].category@);
            }
        } else {
            if exists|i: int| 0 <= i < k && (#[trigger] groups[i]).category@ == t.category@ {
                let i = choose|i: int| 0 <= i < k && (#[trigger] groups[i]).category@ == t.category@;
                assert(i < k - 1);
            }
        }
    }
}

/// Grouping by category rearranges the node types and loses or repeats none:
/// every node type occurs as often among the groups' items, one group after
/// another, as among the types; each group holds only types of its category,
/// in the order the types come in.
pub proof fn grouping_is_a_permutation(types: Seq<NodeType>, groups: Seq<NodeTypeGroup>)
    requires
        is_grouping(types, groups),
    ensures
        forall|t: NodeType| #[trigger] occurrences(group_items(groups), t) == occurrences(types, t),
        forall|i: int, k: int| 0 <= i < groups.len() && 0 <= k < groups[i].items@.len()
            ==> (#[trigger] groups[i].items@[k]).category@ == groups[i].category@,
        forall|i: int| 0 <= i < groups.len() ==> (#[trigger] groups[i]).items@ == of_category(types, groups[i].category@),
{
    assert(groups.take(groups.len() as int) =~= groups);
    assert forall|t: NodeType| #[trigger] occurrences(group_items(groups), t) == occurrences(types, t) by {
        lemma_group_prefix(types, groups, groups.len() as int, t);
        if occurrences(types, t) > 0 {
            lemma_occurs_somewhere(types, t);
            let k = choose|k: int| 0 <= k < types.len() && types[k] == t;
            let i = choose|i: int| 0 <= i < groups.len() && (#[trigger] groups[i]).category@ == (#[trigger] types[k]).category@;
            assert(groups[i].category@ == t.category@);
        }
    }
    assert forall|i: int, k: int| 0 <= i < groups.len() && 0 <= k < groups[i].items@.len()
        implies (#[trigger] groups[i].items@[k]).category@ == groups[i].category@ by {
        lemma_of_category_items(types, groups[i].category@);
        assert(groups[i].items@ == of_category(types, groups[i].category@));
    }
}

/// The node types grouped by category, for the editor's panels: the groups
/// split the whole catalogue, each keeping the catalogue's order.
pub fn get_node_types_grouped() -> (groups: Vec<NodeTypeGroup>)
    ensures
        exists|types: Seq<NodeType>| {
            &&& node_views(types) == catalogue()
            &&& types.len() == catalogue_ids().len()
            &&& forall|i: int| 0 <= i < types.len() ==> #[trigger] types[i].id@ == catalogue_ids()[i] && types[i].category@ == catalogue_categories()[i]
            &&& is_grouping(types, groups@)
            &&& forall|t: NodeType| #[trigger] occurrences(group_items(groups@), t) == occurrences(types, t)
        },
{
    let types = get_all_node_types();
    let ghost tv = types@;
    let groups = group_by_category(types);
    assert(forall|i: int| 0 <= i < tv.len() ==> #[trigger] tv[i].id@ == catalogue_ids()[i] && tv[i].category@ == catalogue_categories()[i]);
    assert(node_views(tv) == catalogue());
    proof {
        grouping_is_a_permutation(tv, groups@);
    }
    groups
}

/// What the dry run predicts each node type produces: "pdf_merge" the
/// "outputName" (default "merged") with ".pdf"; "pdf_compress" and "dedup"
/// their inputs; "video_transcode" "transcode_output.mp4"; "video_to_gif"
/// "output.gif"; "extract_audio" and "audio_convert" "audio_output." and the
/// "format" (default mp3); "office_convert" each input with the extension of
/// "targetFormat" (default pdf); "archive_extract" each input without its
/// extension and with a '/'; "archive_compress" "archive.zip"; "rename" each
/// input as prefix, number from "startNum" (default 1) on, suffix and its
/// extension.
pub proof fn predictions_by_node_type(inputs: Seq<Seq<char>>, params: ParamMap)
    ensures
        predict_spec("pdf_merge"@, inputs, params) == seq![match param_text(params, "outputName"@) {
            Some(n) => n,
            None => "merged"@,
        } + ".pdf"@],
        predict_spec("pdf_compress"@, inputs, params) == inputs,
        predict_spec("dedup"@, inputs, params) == inputs,
        predict_spec("video_transcode"@, inputs, params) == seq!["transcode_output.mp4"@],
        predict_spec("video_to_gif"@, inputs, params) == seq!["output.gif"@],
        predict_spec("extract_audio"@, inputs, params) == seq!["audio_output."@ + match param_text(params, "format"@) {
            Some(f) => f,
            None => "mp3"@,
        }],
        predict_spec("audio_convert"@, inputs, params) == predict_spec("extract_audio"@, inputs, params),
        predict_spec("archive_compress"@, inputs, params) == seq!["archive.zip"@],
        predict_spec("office_convert"@, inputs, params).len() == inputs.len(),
        forall|i: int| 0 <= i < inputs.len() ==> #[trigger] predict_spec("office_convert"@, inputs, params)[i]
            == strip_ext_spec(inputs[i]) + seq!['.'] + match param_text(params, "targetFormat"@) {
                Some(t) => t,
                None => "pdf"@,
            },
        predict_spec("archive_extract"@, inputs, params).len() == inputs.len(),
        forall|i: int| 0 <= i < inputs.len() ==> #[trigger] predict_spec("archive_extract"@, inputs, params)[i]
            == strip_ext_spec(inputs[i]) + seq!['/'],
        predict_spec("rename"@, inputs, params).len() == inputs.len(),
        forall|i: int| 0 <= i < inputs.len() ==> #[trigger] predict_spec("rename"@, inputs, params)[i]
            == match param_text(params, "prefix"@) {
                Some(x) => x,
                None => Seq::<char>::empty(),
            } + decimal((rename_start(params) + i) as nat) + match param_text(params, "suffix"@) {
                Some(x) => x,
                None => Seq::<char>::empty(),
            } + seq!['.'] + ext_of(inputs[i]),
{
    catalogue_ids_distinct();
    let ids = catalogue_ids();
    reveal_strlit("dedup");
    assert(ids[0] == "image_compress"@ && ids[1] == "pdf_merge"@ && ids[2] == "pdf_split"@ && ids[3] == "pdf_compress"@);
    assert(ids[4] == "rename"@ && ids[5] == "dedup"@ && ids[6] == "video_cut"@ && ids[7] == "video_transcode"@);
    assert(ids[8] == "video_to_gif"@ && ids[9] == "extract_audio"@ && ids[10] == "audio_convert"@ && ids[11] == "office_convert"@);
    assert(ids[12] == "archive_extract"@ && ids[13] == "archive_compress"@);
    assert forall|a: int, b: int| 0 <= a < 14 && 0 <= b < 14 && a != b implies #[trigger] ids[a] != #[trigger] ids[b] by {}
}

} // verus!
