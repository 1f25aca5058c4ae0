//! What each node type of a pipeline does with its input files: the handler
//! that serves it, the parameters it reads with their defaults, and the exact
//! outputs, file copies and ffmpeg runs it carries out.
use vstd::prelude::*;
use std::collections::HashSet;
use crate::pipeline::model::{ParamMap, param_text, param_unsigned};
use crate::pipeline::executor::HandlerRegistry;
use crate::pipeline::registry::{catalogue_ids, catalogue_ids_distinct};
use crate::pipeline::preview::views;
use crate::paths::{std_file_name, std_file_stem, std_extension, std_join, std_path_eq, file_name, file_stem, extension, join, same_path};
use crate::text::{push_str, push_decimal, string_of, decimal, str_eq, trim_spec, trim_chars, chars_of, split_char, split_pieces, join_spec, join_texts};
use crate::commands::image::{ImageParams, image_params, image_params_spec};
use crate::commands::video::{owned_texts, last_line, last_line_spec, decimal_text, cut_args_spec, palette_filter, gif_filter};
use crate::commands::dedup::{text_classes, classes_of};

verus! {

// ============================================================
// Which handler serves which node type
// ============================================================

/// The handlers the engine has, one per kind of work.
#[derive(PartialEq, Eq, Structural, Clone, Copy, Debug)]
pub enum HandlerKind {
    ImageCompress,
    PdfMerge,
    PdfSplit,
    PdfCompress,
    Rename,
    Dedup,
    VideoCut,
    VideoTranscode,
    VideoToGif,
    ExtractAudio,
    AudioConvert,
    /// Copies the files into the output directory unchanged.
    CopyThrough,
    ArchiveCompress,
}

/// The handler of each node type of the catalogue, in catalogue order; the
/// office conversion and extraction nodes copy their files through.
pub open spec fn default_kinds() -> Seq<HandlerKind> {
    seq![
        HandlerKind::ImageCompress,
        HandlerKind::PdfMerge,
        HandlerKind::PdfSplit,
        HandlerKind::PdfCompress,
        HandlerKind::Rename,
        HandlerKind::Dedup,
        HandlerKind::VideoCut,
        HandlerKind::VideoTranscode,
        HandlerKind::VideoToGif,
        HandlerKind::ExtractAudio,
        HandlerKind::AudioConvert,
        HandlerKind::CopyThrough,
        HandlerKind::CopyThrough,
        HandlerKind::ArchiveCompress,
    ]
}

impl<H> HandlerRegistry<H> {
    /// The engine's registry: for every node type of the catalogue, the
    /// handler that `make` gives for that type's kind of work.
    pub fn with_defaults<F: Fn(HandlerKind) -> H>(make: F) -> (r: Self)
        requires
            forall|k: HandlerKind| call_requires(make, (k,)),
        ensures
            forall|t: Seq<char>| #[trigger] r@.contains_key(t) <==> catalogue_ids().contains(t),
            forall|i: int| 0 <= i < catalogue_ids().len() ==> call_ensures(make, (default_kinds()[i],), #[trigger] r@[catalogue_ids()[i]]),
    {
        let mut r: HandlerRegistry<H> = HandlerRegistry::new();
        let ghost ids = catalogue_ids();
        let ghost ks = default_kinds();
        proof {
            catalogue_ids_distinct();
        }
        let ghost mut done: Seq<H> = Seq::empty();
        let names = vec![
            "image_compress", "pdf_merge", "pdf_split", "pdf_compress", "rename", "dedup", "video_cut",
            "video_transcode", "video_to_gif", "extract_audio", "audio_convert", "office_convert",
            "archive_extract", "archive_compress",
        ];
        let kinds = vec![
            HandlerKind::ImageCompress, HandlerKind::PdfMerge, HandlerKind::PdfSplit, HandlerKind::PdfCompress,
            HandlerKind::Rename, HandlerKind::Dedup, HandlerKind::VideoCut, HandlerKind::VideoTranscode,
            HandlerKind::VideoToGif, HandlerKind::ExtractAudio, HandlerKind::AudioConvert, HandlerKind::CopyThrough,
            HandlerKind::CopyThrough, HandlerKind::ArchiveCompress,
        ];
        assert(names@.map_values(|n: &str| n@) =~= ids);
        assert(kinds@ =~= ks);
        let mut i: usize = 0;
        while i < names.len()
            invariant
                i <= names.len(),
                names.len() == 14,
                kinds.len() == 14,
                ids == catalogue_ids(),
                ks == default_kinds(),
                names@.map_values(|n: &str| n@) == ids,
                kinds@ == ks,
                ids.no_duplicates(),
                forall|k: HandlerKind| call_requires(make, (k,)),
                forall|t: Seq<char>| #[trigger] r@.contains_key(t) <==> ids.take(i as int).contains(t),
                forall|j: int| 0 <= j < i ==> call_ensures(make, (ks[j],), #[trigger] r@[ids[j]]),
            decreases names.len() - i,
        {
            let h = make(kinds[i]);
            let ghost before = r@;
            r.register(names[i], h);
            assert(names@[i as int]@ == ids[i as int]);
            proof {
                assert forall|t: Seq<char>| #[trigger] r@.contains_key(t) <==> ids.take(i + 1).contains(t) by {
                    assert(ids.take(i + 1) =~= ids.take(i as int).push(ids[i as int]));
                    assert(r@.contains_key(t) <==> (before.contains_key(t) || t == ids[i as int]));
                    if ids.take(i as int).contains(t) {
                        let w = choose|w: int| 0 <= w < i && #[trigger] ids.take(i as int)[w] == t;
                        assert(ids.take(i + 1)[w] == t);
                    }
                    if t == ids[i as int] {
                        assert(ids.take(i + 1)[i as int] == t);
                    }
                    if ids.take(i + 1).contains(t) {
                        let w = choose|w: int| 0 <= w < i + 1 && #[trigger] ids.take(i + 1)[w] == t;
                        if w < i {
                            assert(ids.take(i as int)[w] == t);
                        }
                    }
                }
                assert forall|j: int| 0 <= j < i + 1 implies call_ensures(make, (ks[j],), #[trigger] r@[ids[j]]) by {
                    if j < i {
                        assert(ids[j] != ids[i as int]);
                        assert(r@[ids[j]] == before[ids[j]]);
                    }
                }
            }
            i = i + 1;
        }
        proof {
            assert(ids.take(14) =~= ids);
        }
        r
    }
}

/// Every node type of the catalogue has a handler in the engine's registry.
pub proof fn every_node_type_has_a_handler<H>(r: Map<Seq<char>, H>)
    requires
        forall|t: Seq<char>| #[trigger] r.contains_key(t) <==> catalogue_ids().contains(t),
    ensures
        forall|i: int| 0 <= i < catalogue_ids().len() ==> r.contains_key(#[trigger] catalogue_ids()[i]),
{
    assert forall|i: int| 0 <= i < catalogue_ids().len() implies r.contains_key(#[trigger] catalogue_ids()[i]) by {
        assert(catalogue_ids().contains(catalogue_ids()[i]));
    }
}

// ============================================================
// Shared pieces
// ============================================================

/// A text parameter, or `default` when it is missing or not a string.
pub open spec fn text_or(p: ParamMap, key: Seq<char>, default: Seq<char>) -> Seq<char> {
    match param_text(p, key) {
        Some(s) => s,
        None => default,
    }
}

/// An unsigned parameter, or `default` when it is missing or not one.
pub open spec fn unsigned_or(p: ParamMap, key: Seq<char>, default: u64) -> u64 {
    match param_unsigned(p, key) {
        Some(n) => n,
        None => default,
    }
}

/// Reads a text parameter with a default.
pub fn get_text_or(p: &ParamMap, key: &str, default: &str) -> (r: String)
    ensures
        r@ == text_or(*p, key@, default@),
{
    match p.get_text(key) {
        Some(s) => s,
        None => default.to_string(),
    }
}

/// Reads an unsigned parameter with a default.
pub fn get_unsigned_or(p: &ParamMap, key: &str, default: u64) -> (r: u64)
    ensures
        r == unsigned_or(*p, key@, default),
{
    match p.get_unsigned(key) {
        Some(n) => n,
        None => default,
    }
}

/// `dir` and `name` joined by a slash, as text.
pub open spec fn slash_join(dir: Seq<char>, name: Seq<char>) -> Seq<char> {
    dir + "/"@ + name
}

/// Joins a directory and a name with a slash.
pub fn slash_path(dir: &str, name: &str) -> (r: String)
    ensures
        r@ == slash_join(dir@, name@),
{
    let mut m: Vec<char> = Vec::new();
    push_str(&mut m, dir);
    push_str(&mut m, "/");
    push_str(&mut m, name);
    string_of(m.as_slice())
}

/// The final component of a path, or `default` when it has none.
pub open spec fn name_or(p: Seq<char>, default: Seq<char>) -> Seq<char> {
    match std_file_name(p) {
        Some(n) => n,
        None => default,
    }
}

/// The stem of a path, or `default` when it has none.
pub open spec fn stem_or(p: Seq<char>, default: Seq<char>) -> Seq<char> {
    match std_file_stem(p) {
        Some(n) => n,
        None => default,
    }
}

/// The extension of a path, or `default` when it has none.
pub open spec fn ext_or(p: Seq<char>, default: Seq<char>) -> Seq<char> {
    match std_extension(p) {
        Some(n) => n,
        None => default,
    }
}

/// The final component of a path, or `default`.
pub fn file_name_or(p: &str, default: &str) -> (r: String)
    ensures
        r@ == name_or(p@, default@),
{
    match file_name(p) {
        Some(n) => n,
        None => default.to_string(),
    }
}

/// The stem of a path, or `default`.
pub fn file_stem_or(p: &str, default: &str) -> (r: String)
    ensures
        r@ == stem_or(p@, default@),
{
    match file_stem(p) {
        Some(n) => n,
        None => default.to_string(),
    }
}

/// The extension of a path, or `default`.
pub fn extension_or(p: &str, default: &str) -> (r: String)
    ensures
        r@ == ext_or(p@, default@),
{
    match extension(p) {
        Some(n) => n,
        None => default.to_string(),
    }
}

/// `label`, a space, `subject`, a colon and `reason`: how a failing step
/// names the file it failed on.
pub fn error_about(label: &str, subject: &str, reason: &str) -> (r: String)
    ensures
        r@ == label@ + " "@ + subject@ + ": "@ + reason@,
{
    let mut m: Vec<char> = Vec::new();
    push_str(&mut m, label);
    push_str(&mut m, " ");
    push_str(&mut m, subject);
    push_str(&mut m, ": ");
    push_str(&mut m, reason);
    string_of(m.as_slice())
}

/// `label`, a colon and `reason`.
pub fn error_with(label: &str, reason: &str) -> (r: String)
    ensures
        r@ == label@ + ": "@ + reason@,
{
    let mut m: Vec<char> = Vec::new();
    push_str(&mut m, label);
    push_str(&mut m, ": ");
    push_str(&mut m, reason);
    string_of(m.as_slice())
}

// ============================================================
// Images
// ============================================================

/// How the pipeline's image step saves a picture.
#[derive(PartialEq, Eq, Structural, Clone, Copy, Debug)]
pub enum SaveMethod {
    /// JPEG at the step's quality.
    Jpeg,
    /// Lossless WebP.
    WebP,
    /// In the format its file extension names.
    ByExtension,
}

/// The save method of an output format.
pub open spec fn save_method_spec(format: Seq<char>) -> SaveMethod {
    if format == "jpg"@ || format == "jpeg"@ {
        SaveMethod::Jpeg
    } else if format == "webp"@ {
        SaveMethod::WebP
    } else {
        SaveMethod::ByExtension
    }
}

/// How a picture in `format` is saved.
pub fn save_method(format: &str) -> (r: SaveMethod)
    ensures
        r == save_method_spec(format@),
{
    if str_eq(format, "jpg") || str_eq(format, "jpeg") {
        SaveMethod::Jpeg
    } else if str_eq(format, "webp") {
        SaveMethod::WebP
    } else {
        SaveMethod::ByExtension
    }
}

/// How the pipeline scales a picture down: into a box, or to a width or a
/// height with the other side kept in proportion.
#[derive(PartialEq, Eq, Structural, Clone, Copy, Debug)]
pub enum PipelineResize {
    Keep,
    Fit(u32, u32),
    ToWidth(u32),
    ToHeight(u32),
}

/// How a picture of `width` x `height` is scaled under the given limits:
/// only when it exceeds them.
pub open spec fn pipeline_resize_spec(width: u32, height: u32, max_width: Option<u32>, max_height: Option<u32>) -> PipelineResize {
    match (max_width, max_height) {
        (Some(w), Some(h)) => if width > w || height > h {
            PipelineResize::Fit(w, h)
        } else {
            PipelineResize::Keep
        },
        (Some(w), None) => if width > w {
            PipelineResize::ToWidth(w)
        } else {
            PipelineResize::Keep
        },
        (None, Some(h)) => if height > h {
            PipelineResize::ToHeight(h)
        } else {
            PipelineResize::Keep
        },
        (None, None) => PipelineResize::Keep,
    }
}

/// Decides how a picture is scaled.
pub fn pipeline_resize(width: u32, height: u32, max_width: Option<u32>, max_height: Option<u32>) -> (r: PipelineResize)
    ensures
        r == pipeline_resize_spec(width, height, max_width, max_height),
{
    match (max_width, max_height) {
        (Some(w), Some(h)) => if width > w || height > h {
            PipelineResize::Fit(w, h)
        } else {
            PipelineResize::Keep
        },
        (Some(w), None) => if width > w {
            PipelineResize::ToWidth(w)
        } else {
            PipelineResize::Keep
        },
        (None, Some(h)) => if height > h {
            PipelineResize::ToHeight(h)
        } else {
            PipelineResize::Keep
        },
        (None, None) => PipelineResize::Keep,
    }
}

/// Where the image step writes the picture made from `file`.
pub open spec fn image_output(file: Seq<char>, out_dir: Seq<char>, format: Seq<char>) -> Seq<char> {
    slash_join(out_dir, stem_or(file, "output"@) + "."@ + format)
}

/// The settings of the image step and where each picture goes.
pub fn image_compress_plan(files: &Vec<String>, params: &ParamMap, out_dir: &str) -> (r: (ImageParams, Vec<String>))
    ensures
        (r.0.quality, r.0.format@, r.0.max_width, r.0.max_height) == image_params_spec(*params),
        views(r.1@) == views(files@).map_values(|f: Seq<char>| image_output(f, out_dir@, r.0.format@)),
{
    let settings = image_params(params);
    let mut outs: Vec<String> = Vec::new();
    let mut i: usize = 0;
    while i < files.len()
        invariant
            i <= files.len(),
            (settings.quality, settings.format@, settings.max_width, settings.max_height) == image_params_spec(*params),
            views(outs@) =~= views(files@).map_values(|f: Seq<char>| image_output(f, out_dir@, settings.format@)).take(i as int),
        decreases files.len() - i,
    {
        let stem = file_stem_or(files[i].as_str(), "output");
        let mut m: Vec<char> = Vec::new();
        push_str(&mut m, stem.as_str());
        push_str(&mut m, ".");
        push_str(&mut m, settings.format.as_str());
        let name = string_of(m.as_slice());
        let ghost before = views(outs@);
        outs.push(slash_path(out_dir, name.as_str()));
        assert(views(outs@) =~= before.push(image_output(files@[i as int]@, out_dir@, settings.format@)));
        i = i + 1;
    }
    (settings, outs)
}

// ============================================================
// Renaming, archives, PDFs
// ============================================================

/// The renaming settings: prefix, first number (its low 32 bits) and suffix.
pub open spec fn rename_params_spec(p: ParamMap) -> (Seq<char>, u32, Seq<char>) {
    (
        text_or(p, "prefix"@, ""@),
        (unsigned_or(p, "startNum"@, 1) % 0x1_0000_0000) as u32,
        text_or(p, "suffix"@, ""@),
    )
}

/// Reads the renaming settings.
pub fn rename_params(p: &ParamMap) -> (r: (String, u32, String))
    ensures
        (r.0@, r.1, r.2@) == rename_params_spec(*p),
{
    let prefix = get_text_or(p, "prefix", "");
    let start = get_unsigned_or(p, "startNum", 1);
    let suffix = get_text_or(p, "suffix", "");
    (prefix, (start % 0x1_0000_0000) as u32, suffix)
}

/// The errors of a step joined by "; ".
pub fn join_errors(errors: &Vec<String>) -> (r: String)
    ensures
        r@ == join_spec(views(errors@), "; "@),
{
    join_texts(errors, "; ")
}

/// The archive the packing step writes, and the name each file has in it.
pub fn archive_compress_plan(files: &Vec<String>, out_dir: &str) -> (r: (String, Vec<String>))
    ensures
        r.0@ == slash_join(out_dir@, "archive.zip"@),
        views(r.1@) == views(files@).map_values(|f: Seq<char>| name_or(f, "unknown"@)),
{
    let mut names: Vec<String> = Vec::new();
    let mut i: usize = 0;
    while i < files.len()
        invariant
            i <= files.len(),
            views(names@) =~= views(files@).map_values(|f: Seq<char>| name_or(f, "unknown"@)).take(i as int),
        decreases files.len() - i,
    {
        let ghost before = views(names@);
        names.push(file_name_or(files[i].as_str(), "unknown"));
        assert(views(names@) =~= before.push(name_or(files@[i as int]@, "unknown"@)));
        i = i + 1;
    }
    (slash_path(out_dir, "archive.zip"), names)
}

/// The file the PDF merging step writes.
pub fn pdf_merge_output(p: &ParamMap, out_dir: &str) -> (r: String)
    ensures
        r@ == slash_join(out_dir@, text_or(*p, "outputName"@, "merged"@) + ".pdf"@),
{
    let name = get_text_or(p, "outputName", "merged");
    let mut m: Vec<char> = Vec::new();
    push_str(&mut m, name.as_str());
    push_str(&mut m, ".pdf");
    let file = string_of(m.as_slice());
    slash_path(out_dir, file.as_str())
}

/// The file the PDF compression step writes for each input.
pub fn pdf_compress_outputs(files: &Vec<String>, out_dir: &str) -> (r: Vec<String>)
    ensures
        views(r@) == views(files@).map_values(|f: Seq<char>| slash_join(out_dir@, name_or(f, "compressed.pdf"@))),
{
    let mut outs: Vec<String> = Vec::new();
    let mut i: usize = 0;
    while i < files.len()
        invariant
            i <= files.len(),
            views(outs@) =~= views(files@).map_values(|f: Seq<char>| slash_join(out_dir@, name_or(f, "compressed.pdf"@))).take(i as int),
        decreases files.len() - i,
    {
        let name = file_name_or(files[i].as_str(), "compressed.pdf");
        let ghost before = views(outs@);
        outs.push(slash_path(out_dir, name.as_str()));
        assert(views(outs@) =~= before.push(slash_join(out_dir@, name_or(files@[i as int]@, "compressed.pdf"@))));
        i = i + 1;
    }
    outs
}

// ============================================================
// Video and audio steps
// ============================================================

/// The work an ffmpeg step does for one file: its runs, in order, each with
/// its arguments before the common options; a file to remove once all runs
/// succeeded; and the file it outputs. The first run that fails ends the step.
pub struct FfStep {
    pub runs: Vec<Vec<String>>,
    pub cleanup: Option<String>,
    pub output: String,
}

/// A step as plain values.
pub struct FfStepView {
    pub runs: Seq<Seq<Seq<char>>>,
    pub cleanup: Option<Seq<char>>,
    pub output: Seq<char>,
}

/// The plain view of a step.
pub open spec fn step_view(s: FfStep) -> FfStepView {
    FfStepView {
        runs: s.runs@.map_values(|r: Vec<String>| views(r@)),
        cleanup: match s.cleanup {
            Some(c) => Some(c@),
            None => None,
        },
        output: s.output@,
    }
}

/// The plain views of some steps.
pub open spec fn steps_view(v: Seq<FfStep>) -> Seq<FfStepView> {
    v.map_values(|s: FfStep| step_view(s))
}

/// A step of a single run.
fn one_run_step(args: Vec<String>, output: String) -> (s: FfStep)
    ensures
        step_view(s) == (FfStepView { runs: seq![views(args@)], cleanup: None, output: output@ }),
{
    let mut runs: Vec<Vec<String>> = Vec::new();
    runs.push(args);
    let s = FfStep { runs, cleanup: None, output };
    assert(step_view(s).runs =~~= seq![views(args@)]);
    s
}

/// `prefix` followed by `text`.
fn concat(prefix: &str, text: &str) -> (r: String)
    ensures
        r@ == prefix@ + text@,
{
    let mut m: Vec<char> = Vec::new();
    push_str(&mut m, prefix);
    push_str(&mut m, text);
    string_of(m.as_slice())
}

/// The cutting step for one file.
pub open spec fn cut_step(f: Seq<char>, p: ParamMap, out_dir: Seq<char>) -> FfStepView {
    let out = std_join(out_dir, "cut_output."@ + ext_or(f, "mp4"@));
    FfStepView {
        runs: seq![cut_args_spec(f, text_or(p, "start"@, "00:00:00"@), text_or(p, "end"@, "00:00:10"@), out, text_or(p, "mode"@, "fast"@) == "fast"@)],
        cleanup: None,
        output: out,
    }
}

/// The cutting steps: each file's clip from "start" (default 00:00:00) to
/// "end" (default 00:00:10), copied in the "fast" mode (the default), else
/// re-encoded.
pub fn video_cut_plan(files: &Vec<String>, p: &ParamMap, out_dir: &str) -> (r: Vec<FfStep>)
    ensures
        steps_view(r@) == views(files@).map_values(|f: Seq<char>| cut_step(f, *p, out_dir@)),
{
    let start = get_text_or(p, "start", "00:00:00");
    let end = get_text_or(p, "end", "00:00:10");
    let mode = get_text_or(p, "mode", "fast");
    let fast = str_eq(mode.as_str(), "fast");
    let mut r: Vec<FfStep> = Vec::new();
    let mut i: usize = 0;
    while i < files.len()
        invariant
            i <= files.len(),
            start@ == text_or(*p, "start"@, "00:00:00"@),
            end@ == text_or(*p, "end"@, "00:00:10"@),
            fast == (text_or(*p, "mode"@, "fast"@) == "fast"@),
            steps_view(r@) =~~= views(files@).map_values(|f: Seq<char>| cut_step(f, *p, out_dir@)).take(i as int),
        decreases files.len() - i,
    {
        let f = files[i].as_str();
        let ext = extension_or(f, "mp4");
        let name = concat("cut_output.", ext.as_str());
        let out = join(out_dir, name.as_str());
        let o = out.as_str();
        let args = if fast {
            owned_texts(&vec!["-ss", start.as_str(), "-i", f, "-to", end.as_str(), "-c", "copy", "-avoid_negative_ts", "make_zero", o])
        } else {
            owned_texts(&vec!["-ss", start.as_str(), "-i", f, "-to", end.as_str(), "-c:v", "libx264", "-c:a", "aac", o])
        };
        assert(views(args@) =~= cut_args_spec(f@, start@, end@, out@, fast));
        let step = one_run_step(args, out);
        let ghost before = steps_view(r@);
        r.push(step);
        assert(steps_view(r@) =~~= before.push(cut_step(files@[i as int]@, *p, out_dir@)));
        i = i + 1;
    }
    r
}

/// The video encoder of the transcoding step: the "encoder" parameter when
/// given, else the one for "videoCodec" (h264 unless h265 or vp9).
pub open spec fn transcode_encoder(p: ParamMap) -> Seq<char> {
    let encoder = text_or(p, "encoder"@, ""@);
    let codec = text_or(p, "videoCodec"@, "h264"@);
    if encoder.len() > 0 {
        encoder
    } else if codec == "h265"@ {
        "libx265"@
    } else if codec == "vp9"@ {
        "libvpx-vp9"@
    } else {
        "libx264"@
    }
}

/// The transcoding step for one file.
pub open spec fn transcode_step(f: Seq<char>, p: ParamMap, out_dir: Seq<char>) -> FfStepView {
    let out = std_join(out_dir, "transcode_output.mp4"@);
    let crf = decimal(unsigned_or(p, "crf"@, 23) as nat);
    FfStepView {
        runs: seq![seq!["-i"@, f, "-c:v"@, transcode_encoder(p), "-crf"@, crf, "-preset"@, "medium"@, "-c:a"@, "aac"@, out]],
        cleanup: None,
        output: out,
    }
}

/// The transcoding steps; the quality ("crf") defaults to 23.
pub fn video_transcode_plan(files: &Vec<String>, p: &ParamMap, out_dir: &str) -> (r: Vec<FfStep>)
    ensures
        steps_view(r@) == views(files@).map_values(|f: Seq<char>| transcode_step(f, *p, out_dir@)),
{
    let codec = get_text_or(p, "videoCodec", "h264");
    let crf = decimal_text(get_unsigned_or(p, "crf", 23));
    let encoder = get_text_or(p, "encoder", "");
    let vcodec: String = if chars_of(encoder.as_str()).len() > 0 {
        encoder
    } else if str_eq(codec.as_str(), "h265") {
        "libx265".to_string()
    } else if str_eq(codec.as_str(), "vp9") {
        "libvpx-vp9".to_string()
    } else {
        "libx264".to_string()
    };
    assert(vcodec@ == transcode_encoder(*p));
    let out = join(out_dir, "transcode_output.mp4");
    let mut r: Vec<FfStep> = Vec::new();
    let mut i: usize = 0;
    while i < files.len()
        invariant
            i <= files.len(),
            vcodec@ == transcode_encoder(*p),
            crf@ == decimal(unsigned_or(*p, "crf"@, 23) as nat),
            out@ == std_join(out_dir@, "transcode_output.mp4"@),
            steps_view(r@) =~~= views(files@).map_values(|f: Seq<char>| transcode_step(f, *p, out_dir@)).take(i as int),
        decreases files.len() - i,
    {
        let f = files[i].as_str();
        let args = owned_texts(&vec!["-i", f, "-c:v", vcodec.as_str(), "-crf", crf.as_str(), "-preset", "medium", "-c:a", "aac", out.as_str()]);
        assert(views(args@) =~= seq!["-i"@, f@, "-c:v"@, vcodec@, "-crf"@, crf@, "-preset"@, "medium"@, "-c:a"@, "aac"@, out@]);
        let step = one_run_step(args, out.clone());
        let ghost before = steps_view(r@);
        r.push(step);
        assert(steps_view(r@) =~~= before.push(transcode_step(files@[i as int]@, *p, out_dir@)));
        i = i + 1;
    }
    r
}

/// The GIF step for one file: a palette run and a GIF run; the palette is
/// removed afterwards.
pub open spec fn gif_step(f: Seq<char>, p: ParamMap, out_dir: Seq<char>) -> FfStepView {
    let start = text_or(p, "start"@, "00:00:00"@);
    let dur = decimal(unsigned_or(p, "duration"@, 5) as nat);
    let fps = unsigned_or(p, "fps"@, 10) as nat;
    let w = unsigned_or(p, "width"@, 480) as nat;
    let out = std_join(out_dir, "output.gif"@);
    let pal = std_join(out_dir, "palette.png"@);
    FfStepView {
        runs: seq![
            seq!["-ss"@, start, "-t"@, dur, "-i"@, f, "-vf"@, palette_filter(fps, w), pal],
            seq!["-ss"@, start, "-t"@, dur, "-i"@, f, "-i"@, pal, "-lavfi"@, gif_filter(fps, w), out],
        ],
        cleanup: Some(pal),
        output: out,
    }
}

/// The GIF steps: "start" (default 00:00:00), "duration" in seconds
/// (default 5), "fps" (default 10) and "width" (default 480).
pub fn video_to_gif_plan(files: &Vec<String>, p: &ParamMap, out_dir: &str) -> (r: Vec<FfStep>)
    ensures
        steps_view(r@) == views(files@).map_values(|f: Seq<char>| gif_step(f, *p, out_dir@)),
{
    let start = get_text_or(p, "start", "00:00:00");
    let dur = decimal_text(get_unsigned_or(p, "duration", 5));
    let fps = get_unsigned_or(p, "fps", 10);
    let w = get_unsigned_or(p, "width", 480);
    let mut f1: Vec<char> = Vec::new();
    push_str(&mut f1, "fps=");
    push_decimal(&mut f1, fps as u128);
    push_str(&mut f1, ",scale=");
    push_decimal(&mut f1, w as u128);
    push_str(&mut f1, ":-1:flags=lanczos,palettegen");
    let vf = string_of(f1.as_slice());
    let mut f2: Vec<char> = Vec::new();
    push_str(&mut f2, "fps=");
    push_decimal(&mut f2, fps as u128);
    push_str(&mut f2, ",scale=");
    push_decimal(&mut f2, w as u128);
    push_str(&mut f2, ":-1:flags=lanczos[x];[x][1:v]paletteuse");
    let lavfi = string_of(f2.as_slice());
    let out = join(out_dir, "output.gif");
    let pal = join(out_dir, "palette.png");
    let mut r: Vec<FfStep> = Vec::new();
    let mut i: usize = 0;
    while i < files.len()
        invariant
            i <= files.len(),
            start@ == text_or(*p, "start"@, "00:00:00"@),
            dur@ == decimal(unsigned_or(*p, "duration"@, 5) as nat),
            vf@ == palette_filter(unsigned_or(*p, "fps"@, 10) as nat, unsigned_or(*p, "width"@, 480) as nat),
            lavfi@ == gif_filter(unsigned_or(*p, "fps"@, 10) as nat, unsigned_or(*p, "width"@, 480) as nat),
            out@ == std_join(out_dir@, "output.gif"@),
            pal@ == std_join(out_dir@, "palette.png"@),
            steps_view(r@) =~~= views(files@).map_values(|f: Seq<char>| gif_step(f, *p, out_dir@)).take(i as int),
        decreases files.len() - i,
    {
        let f = files[i].as_str();
        let a1 = owned_texts(&vec!["-ss", start.as_str(), "-t", dur.as_str(), "-i", f, "-vf", vf.as_str(), pal.as_str()]);
        let a2 = owned_texts(&vec!["-ss", start.as_str(), "-t", dur.as_str(), "-i", f, "-i", pal.as_str(), "-lavfi", lavfi.as_str(), out.as_str()]);
        assert(views(a1@) =~= seq!["-ss"@, start@, "-t"@, dur@, "-i"@, f@, "-vf"@, vf@, pal@]);
        assert(views(a2@) =~= seq!["-ss"@, start@, "-t"@, dur@, "-i"@, f@, "-i"@, pal@, "-lavfi"@, lavfi@, out@]);
        let ghost v1 = views(a1@);
        let ghost v2 = views(a2@);
        let mut runs: Vec<Vec<String>> = Vec::new();
        runs.push(a1);
        runs.push(a2);
        assert(runs@.map_values(|r: Vec<String>| views(r@)) =~~= seq![v1, v2]);
        let step = FfStep { runs, cleanup: Some(pal.clone()), output: out.clone() };
        assert(step_view(step) =~~= gif_step(files@[i as int]@, *p, out_dir@));
        let ghost before = steps_view(r@);
        r.push(step);
        assert(steps_view(r@) =~~= before.push(gif_step(files@[i as int]@, *p, out_dir@)));
        i = i + 1;
    }
    r
}

/// The audio codec of an output format: mp3's unless aac, flac, wav or ogg.
pub open spec fn audio_codec(fmt: Seq<char>) -> Seq<char> {
    if fmt == "aac"@ {
        "aac"@
    } else if fmt == "flac"@ {
        "flac"@
    } else if fmt == "wav"@ {
        "pcm_s16le"@
    } else if fmt == "ogg"@ {
        "libvorbis"@
    } else {
        "libmp3lame"@
    }
}

/// The audio step for one file.
pub open spec fn audio_step(f: Seq<char>, p: ParamMap, out_dir: Seq<char>) -> FfStepView {
    let fmt = text_or(p, "format"@, "mp3"@);
    let out = std_join(out_dir, "audio_output."@ + fmt);
    FfStepView {
        runs: seq![seq!["-i"@, f, "-vn"@, "-c:a"@, audio_codec(fmt), "-b:a"@, text_or(p, "bitrate"@, "192k"@), out]],
        cleanup: None,
        output: out,
    }
}

/// The audio extraction or conversion steps: "format" (default mp3) at
/// "bitrate" (default 192k).
pub fn audio_plan(files: &Vec<String>, p: &ParamMap, out_dir: &str) -> (r: Vec<FfStep>)
    ensures
        steps_view(r@) == views(files@).map_values(|f: Seq<char>| audio_step(f, *p, out_dir@)),
{
    let fmt = get_text_or(p, "format", "mp3");
    let br = get_text_or(p, "bitrate", "192k");
    let fm = fmt.as_str();
    let codec = if str_eq(fm, "aac") {
        "aac"
    } else if str_eq(fm, "flac") {
        "flac"
    } else if str_eq(fm, "wav") {
        "pcm_s16le"
    } else if str_eq(fm, "ogg") {
        "libvorbis"
    } else {
        "libmp3lame"
    };
    assert(codec@ == audio_codec(fmt@));
    let name = concat("audio_output.", fm);
    let out = join(out_dir, name.as_str());
    let mut r: Vec<FfStep> = Vec::new();
    let mut i: usize = 0;
    while i < files.len()
        invariant
            i <= files.len(),
            fmt@ == text_or(*p, "format"@, "mp3"@),
            br@ == text_or(*p, "bitrate"@, "192k"@),
            codec@ == audio_codec(fmt@),
            out@ == std_join(out_dir@, "audio_output."@ + fmt@),
            steps_view(r@) =~~= views(files@).map_values(|f: Seq<char>| audio_step(f, *p, out_dir@)).take(i as int),
        decreases files.len() - i,
    {
        let f = files[i].as_str();
        let args = owned_texts(&vec!["-i", f, "-vn", "-c:a", codec, "-b:a", br.as_str(), out.as_str()]);
        assert(views(args@) =~= seq!["-i"@, f@, "-vn"@, "-c:a"@, codec@, "-b:a"@, br@, out@]);
        let step = one_run_step(args, out.clone());
        let ghost before = steps_view(r@);
        r.push(step);
        assert(steps_view(r@) =~~= before.push(audio_step(files@[i as int]@, *p, out_dir@)));
        i = i + 1;
    }
    r
}

/// The error of a run that failed: its last argument (the output) and the
/// last line of what it wrote to its error output.
pub fn run_failure(args: &Vec<String>, stderr: &str) -> (r: String)
    requires
        args.len() > 0,
    ensures
        r@ == "ffmpeg("@ + args@[args.len() - 1]@ + "): "@ + last_line_spec(stderr@),
{
    let tail = last_line(stderr);
    let mut m: Vec<char> = Vec::new();
    push_str(&mut m, "ffmpeg(");
    push_str(&mut m, args[args.len() - 1].as_str());
    push_str(&mut m, "): ");
    push_str(&mut m, tail.as_str());
    string_of(m.as_slice())
}

/// The error when ffmpeg could not be started for a step.
pub fn run_spawn_failure(reason: &str) -> (r: String)
    ensures
        r@ == "ffmpeg 未安装或执行失败: "@ + reason@,
{
    concat("ffmpeg 未安装或执行失败: ", reason)
}

// ============================================================
// PDF splitting, duplicates, copying through
// ============================================================

/// The trimmed pieces that are not empty, in order.
pub open spec fn kept_ranges(pieces: Seq<Seq<char>>) -> Seq<Seq<char>>
    decreases pieces.len(),
{
    if pieces.len() == 0 {
        Seq::empty()
    } else {
        let r = kept_ranges(pieces.drop_last());
        let t = trim_spec(pieces.last());
        if t.len() > 0 {
            r.push(t)
        } else {
            r
        }
    }
}

/// The page ranges of a comma-separated list: each piece trimmed, empty
/// pieces dropped.
pub fn split_ranges(text: &str) -> (r: Vec<String>)
    ensures
        views(r@) == kept_ranges(split_char(text@, ',')),
{
    let pieces = split_pieces(text, ',');
    let ghost pv = pieces@.map_values(|v: Vec<char>| v@);
    let mut r: Vec<String> = Vec::new();
    let mut i: usize = 0;
    assert(pv.take(0) =~= Seq::<Seq<char>>::empty());
    while i < pieces.len()
        invariant
            i <= pieces.len(),
            pv == pieces@.map_values(|v: Vec<char>| v@),
            pv == split_char(text@, ','),
            views(r@) == kept_ranges(pv.take(i as int)),
        decreases pieces.len() - i,
    {
        assert(pv.take(i + 1).drop_last() =~= pv.take(i as int));
        assert(pv.take(i + 1).last() == pieces@[i as int]@);
        let t = trim_chars(&pieces[i]);
        if t.len() > 0 {
            let ghost before = views(r@);
            r.push(string_of(t.as_slice()));
            assert(views(r@) =~= before.push(t@));
        }
        i = i + 1;
    }
    assert(pv.take(pieces.len() as int) =~= pv);
    r
}

/// The page ranges of the splitting step ("ranges", default "1").
pub fn pdf_split_ranges(p: &ParamMap) -> (r: Vec<String>)
    ensures
        views(r@) == kept_ranges(split_char(text_or(*p, "ranges"@, "1"@), ',')),
{
    let text = get_text_or(p, "ranges", "1");
    split_ranges(text.as_str())
}

/// A copy the duplicate-removal step makes: from a kept file to its place in
/// the output directory, unless that is the file itself.
pub struct CopyStep {
    pub from: String,
    pub to: String,
    pub copy: bool,
}

/// The duplicate-removal step keeps the first file of each content hash and
/// copies it, under its own name ("file" when it has none), into the output
/// directory. `hashes[i]` is the content hash of `files[i]`.
pub fn dedup_plan(files: &Vec<String>, hashes: &Vec<String>, out_dir: &str) -> (r: Vec<CopyStep>)
    requires
        files.len() == hashes.len(),
    ensures
        exists|gs: Seq<Seq<int>>|
            {
                &&& classes_of(views(hashes@), gs, 1)
                &&& r.len() == gs.len()
                &&& forall|k: int|
                    0 <= k < r.len() ==> {
                        let from = files@[#[trigger] gs[k][0]]@;
                        let to = std_join(out_dir@, name_or(from, "file"@));
                        &&& r@[k].from@ == from
                        &&& r@[k].to@ == to
                        &&& r@[k].copy == !std_path_eq(from, to)
                    }
            },
{
    let gs = text_classes(hashes, 1);
    let ghost gv = crate::commands::dedup::idx_view(gs@);
    let mut r: Vec<CopyStep> = Vec::new();
    let mut k: usize = 0;
    while k < gs.len()
        invariant
            k <= gs.len(),
            files.len() == hashes.len(),
            gv == crate::commands::dedup::idx_view(gs@),
            classes_of(views(hashes@), gv, 1),
            r.len() == k,
            forall|t: int|
                0 <= t < k ==> {
                    let from = files@[#[trigger] gv[t][0]]@;
                    let to = std_join(out_dir@, name_or(from, "file"@));
                    &&& r@[t].from@ == from
                    &&& r@[t].to@ == to
                    &&& r@[t].copy == !std_path_eq(from, to)
                },
        decreases gs.len() - k,
    {
        assert(gv[k as int].len() > 0);
        let j = gs[k][0];
        assert(j as int == gv[k as int][0]);
        assert(0 <= gv[k as int][0] < views(hashes@).len());
        let from = files[j].clone();
        let name = file_name_or(from.as_str(), "file");
        let to = join(out_dir, name.as_str());
        let copy = !same_path(from.as_str(), to.as_str());
        r.push(CopyStep { from, to, copy });
        k = k + 1;
    }
    assert(gv.len() == gs.len());
    r
}

/// Where the copying step puts a file: nowhere when the file already is its
/// own destination, else its place in the output directory, or, when that
/// is taken, the place with "_step" added to the stem.
pub enum CopyTarget {
    Same,
    To { primary: String, alternate: String },
}

/// The alternative place for a copy whose place `primary` is taken.
pub open spec fn alternate_spec(out_dir: Seq<char>, primary: Seq<char>) -> Seq<char> {
    let stem = stem_or(primary, "out"@);
    let ext = ext_or(primary, ""@);
    if ext.len() == 0 {
        std_join(out_dir, stem + "_step"@)
    } else {
        std_join(out_dir, stem + "_step."@ + ext)
    }
}

/// Where the copying step puts `file`.
pub fn copy_target(file: &str, out_dir: &str) -> (r: CopyTarget)
    ensures
        ({
            let primary = std_join(out_dir@, name_or(file@, "output"@));
            if std_path_eq(file@, primary) {
                r is Same
            } else {
                r matches CopyTarget::To { primary: p, alternate: a } && p@ == primary && a@ == alternate_spec(out_dir@, primary)
            }
        }),
{
    let name = file_name_or(file, "output");
    let primary = join(out_dir, name.as_str());
    if same_path(file, primary.as_str()) {
        return CopyTarget::Same;
    }
    let stem = file_stem_or(primary.as_str(), "out");
    let ext = extension_or(primary.as_str(), "");
    let e = chars_of(ext.as_str());
    let mut m: Vec<char> = Vec::new();
    push_str(&mut m, stem.as_str());
    if e.len() == 0 {
        push_str(&mut m, "_step");
    } else {
        push_str(&mut m, "_step.");
        push_str(&mut m, ext.as_str());
    }
    let alt_name = string_of(m.as_slice());
    let alternate = join(out_dir, alt_name.as_str());
    CopyTarget::To { primary, alternate }
}

/// The error of a copy that failed.
pub fn copy_failure(from: &str, to: &str, reason: &str) -> (r: String)
    ensures
        r@ == "复制失败 "@ + from@ + " → "@ + to@ + ": "@ + reason@,
{
    let mut m: Vec<char> = Vec::new();
    push_str(&mut m, "复制失败 ");
    push_str(&mut m, from);
    push_str(&mut m, " → ");
    push_str(&mut m, to);
    push_str(&mut m, ": ");
    push_str(&mut m, reason);
    string_of(m.as_slice())
}

// ============================================================
// Merging PDFs page by page
// ============================================================

/// What the page-by-page merge reads of one document, after its objects were
/// renumbered apart from the others': each page's id, in page order, with
/// whether its object can be read, and the ids of all its objects, in order.
pub struct PagesDoc {
    pub pages: Vec<(u32, u16, bool)>,
    pub objects: Vec<(u32, u16)>,
}

/// A copy into the merged document: from document `.0`, the object with id
/// (`.1`, `.2`), read as a page (following references) when `.3`, else as stored.
pub type ObjectCopy = (usize, u32, u16, bool);

/// The readable pages of document `d`, as copies.
pub open spec fn page_copies(d: usize, pages: Seq<(u32, u16, bool)>) -> Seq<ObjectCopy>
    decreases pages.len(),
{
    if pages.len() == 0 {
        Seq::empty()
    } else {
        let r = page_copies(d, pages.drop_last());
        if pages.last().2 {
            r.push((d, pages.last().0, pages.last().1, true))
        } else {
            r
        }
    }
}

/// The copies a document asks for: its readable pages, then all its objects.
pub open spec fn doc_copies(d: usize, doc: PagesDoc) -> Seq<ObjectCopy> {
    page_copies(d, doc.pages@) + doc.objects@.map_values(|o: (u32, u16)| (d, o.0, o.1, false))
}

/// The copies all documents ask for, in order.
pub open spec fn all_copies(docs: Seq<PagesDoc>) -> Seq<ObjectCopy>
    decreases docs.len(),
{
    if docs.len() == 0 {
        Seq::empty()
    } else {
        all_copies(docs.drop_last()) + doc_copies((docs.len() - 1) as usize, docs.last())
    }
}

/// The id a copy writes.
pub open spec fn copy_id(c: ObjectCopy) -> (u32, u16) {
    (c.1, c.2)
}

/// The copies that take effect: a page always replaces what its id held; any
/// other object only fills an id that no earlier copy wrote.
pub open spec fn effective_copies(cs: Seq<ObjectCopy>) -> Seq<ObjectCopy>
    decreases cs.len(),
{
    if cs.len() == 0 {
        Seq::empty()
    } else {
        let prev = cs.drop_last();
        let r = effective_copies(prev);
        if cs.last().3 || !prev.map_values(|c: ObjectCopy| copy_id(c)).contains(copy_id(cs.last())) {
            r.push(cs.last())
        } else {
            r
        }
    }
}

/// The ids of all pages of all documents, in order, readable or not.
pub open spec fn all_page_ids(docs: Seq<PagesDoc>) -> Seq<(u32, u16)>
    decreases docs.len(),
{
    if docs.len() == 0 {
        Seq::empty()
    } else {
        all_page_ids(docs.drop_last()) + docs.last().pages@.map_values(|p: (u32, u16, bool)| (p.0, p.1))
    }
}

/// An object id as one number.
pub open spec fn id_key(id: (u32, u16)) -> u64 {
    (id.0 as u64 * 65536 + id.1 as u64) as u64
}

proof fn lemma_id_key_injective(a: (u32, u16), b: (u32, u16))
    ensures
        id_key(a) == id_key(b) ==> a == b,
{
    assert(a.0 as u64 * 65536 + a.1 as u64 <= 0xFFFF_FFFF_FFFF_FFFF);
    assert(b.0 as u64 * 65536 + b.1 as u64 <= 0xFFFF_FFFF_FFFF_FFFF);
}

/// The copies all documents ask for.
fn gather_copies(docs: &Vec<PagesDoc>) -> (r: Vec<ObjectCopy>)
    ensures
        r@ == all_copies(docs@),
{
    let mut r: Vec<ObjectCopy> = Vec::new();
    let mut d: usize = 0;
    assert(docs@.take(0) =~= Seq::<PagesDoc>::empty());
    while d < docs.len()
        invariant
            d <= docs.len(),
            r@ == all_copies(docs@.take(d as int)),
        decreases docs.len() - d,
    {
        assert(docs@.take(d + 1).drop_last() =~= docs@.take(d as int));
        let doc = &docs[d];
        let ghost base = r@;
        let mut k: usize = 0;
        assert(doc.pages@.take(0) =~= Seq::<(u32, u16, bool)>::empty());
        while k < doc.pages.len()
            invariant
                k <= doc.pages.len(),
                r@ == base + page_copies(d, doc.pages@.take(k as int)),
            decreases doc.pages.len() - k,
        {
            assert(doc.pages@.take(k + 1).drop_last() =~= doc.pages@.take(k as int));
            let (a, b, readable) = doc.pages[k];
            if readable {
                r.push((d, a, b, true));
            }
            assert(r@ =~= base + page_copies(d, doc.pages@.take(k + 1)));
            k = k + 1;
        }
        assert(doc.pages@.take(doc.pages.len() as int) =~= doc.pages@);
        let ghost mid = r@;
        let mut j: usize = 0;
        while j < doc.objects.len()
            invariant
                j <= doc.objects.len(),
                r@ == mid + doc.objects@.map_values(|o: (u32, u16)| (d, o.0, o.1, false)).take(j as int),
            decreases doc.objects.len() - j,
        {
            let (a, b) = doc.objects[j];
            r.push((d, a, b, false));
            assert(r@ =~= mid + doc.objects@.map_values(|o: (u32, u16)| (d, o.0, o.1, false)).take(j + 1));
            j = j + 1;
        }
        assert(r@ =~= all_copies(docs@.take(d + 1)));
        d = d + 1;
    }
    assert(docs@.take(docs.len() as int) =~= docs@);
    r
}

/// How the page-by-page merge builds its document: the page tree's kids,
/// every page of every document in order, and the object copies that take
/// effect, in order.
pub fn page_merge_plan(docs: &Vec<PagesDoc>) -> (r: (Vec<(u32, u16)>, Vec<ObjectCopy>))
    ensures
        r.0@ == all_page_ids(docs@),
        r.1@ == effective_copies(all_copies(docs@)),
{
    broadcast use vstd::std_specs::hash::group_hash_axioms;

    let mut kids: Vec<(u32, u16)> = Vec::new();
    let mut d: usize = 0;
    assert(docs@.take(0) =~= Seq::<PagesDoc>::empty());
    while d < docs.len()
        invariant
            d <= docs.len(),
            kids@ == all_page_ids(docs@.take(d as int)),
        decreases docs.len() - d,
    {
        assert(docs@.take(d + 1).drop_last() =~= docs@.take(d as int));
        let ghost base = kids@;
        let mut k: usize = 0;
        while k < docs[d].pages.len()
            invariant
                k <= docs@[d as int].pages.len(),
                d < docs.len(),
                kids@ == base + docs@[d as int].pages@.map_values(|p: (u32, u16, bool)| (p.0, p.1)).take(k as int),
            decreases docs@[d as int].pages.len() - k,
        {
            let (a, b, _) = docs[d].pages[k];
            kids.push((a, b));
            assert(kids@ =~= base + docs@[d as int].pages@.map_values(|p: (u32, u16, bool)| (p.0, p.1)).take(k + 1));
            k = k + 1;
        }
        assert(kids@ =~= all_page_ids(docs@.take(d + 1)));
        d = d + 1;
    }
    assert(docs@.take(docs.len() as int) =~= docs@);

    let cs = gather_copies(docs);
    let mut taken: HashSet<u64> = HashSet::new();
    let mut out: Vec<ObjectCopy> = Vec::new();
    let mut i: usize = 0;
    assert(cs@.take(0) =~= Seq::<ObjectCopy>::empty());
    while i < cs.len()
        invariant
            i <= cs.len(),
            out@ == effective_copies(cs@.take(i as int)),
            forall|key: u64| #[trigger] taken@.contains(key) <==> exists|j: int| 0 <= j < i && id_key(copy_id(#[trigger] cs@[j])) == key,
        decreases cs.len() - i,
    {
        let c = cs[i];
        let ghost prev = cs@.take(i as int);
        assert(cs@.take(i + 1).drop_last() =~= prev);
        assert(cs@.take(i + 1).last() == c);
        let key: u64 = c.1 as u64 * 65536 + c.2 as u64;
        assert(key == id_key(copy_id(c)));
        proof {
            assert(prev.map_values(|x: ObjectCopy| copy_id(x)).contains(copy_id(c)) <==> taken@.contains(key)) by {
                if taken@.contains(key) {
                    let j = choose|j: int| 0 <= j < i && id_key(copy_id(#[trigger] cs@[j])) == key;
                    lemma_id_key_injective(copy_id(cs@[j]), copy_id(c));
                    assert(prev.map_values(|x: ObjectCopy| copy_id(x))[j] == copy_id(c));
                }
                if prev.map_values(|x: ObjectCopy| copy_id(x)).contains(copy_id(c)) {
                    let ids = prev.map_values(|x: ObjectCopy| copy_id(x));
                    let j = choose|j: int| 0 <= j < ids.len() && #[trigger] ids[j] == copy_id(c);
                    assert(id_key(copy_id(cs@[j])) == key);
                }
            }
        }
        let fresh = taken.insert(key);
        if c.3 || fresh {
            out.push(c);
        }
        proof {
            assert forall|k2: u64| #[trigger] taken@.contains(k2) <==> exists|j: int| 0 <= j < i + 1 && id_key(copy_id(#[trigger] cs@[j])) == k2 by {
                if k2 == key {
                    assert(id_key(copy_id(cs@[i as int])) == k2);
                }
                if exists|j: int| 0 <= j < i + 1 && id_key(copy_id(#[trigger] cs@[j])) == k2 {
                    let j = choose|j: int| 0 <= j < i + 1 && id_key(copy_id(#[trigger] cs@[j])) == k2;
                    if j < i {
                        assert(exists|j2: int| 0 <= j2 < i && id_key(copy_id(#[trigger] cs@[j2])) == k2);
                    }
                }
            }
        }
        i = i + 1;
    }
    assert(cs@.take(cs.len() as int) =~= cs@);
    (kids, out)
}

/// An audio step reads the file and encodes with the codec of the requested
/// format: "aac" with "aac", "flac" with "flac", "wav" with "pcm_s16le", "ogg"
/// with "libvorbis", and any other format (mp3 when none is given) with
/// "libmp3lame"; it writes "audio_output.<format>" under the output folder.
pub proof fn audio_step_uses_the_format_codec(f: Seq<char>, p: ParamMap, out_dir: Seq<char>)
    ensures
        ({
            let step = audio_step(f, p, out_dir);
            let fmt = match param_text(p, "format"@) {
                Some(x) => x,
                None => "mp3"@,
            };
            &&& step.runs.len() == 1
            &&& step.runs[0].len() == 8
            &&& step.runs[0][0] == "-i"@ && step.runs[0][1] == f
            &&& step.runs[0][2] == "-vn"@ && step.runs[0][3] == "-c:a"@
            &&& step.output == std_join(out_dir, "audio_output."@ + fmt)
            &&& step.runs[0][7] == step.output
            &&& fmt == "aac"@ ==> step.runs[0][4] == "aac"@
            &&& fmt == "flac"@ ==> step.runs[0][4] == "flac"@
            &&& fmt == "wav"@ ==> step.runs[0][4] == "pcm_s16le"@
            &&& fmt == "ogg"@ ==> step.runs[0][4] == "libvorbis"@
            &&& (fmt != "aac"@ && fmt != "flac"@ && fmt != "wav"@ && fmt != "ogg"@) ==> step.runs[0][4] == "libmp3lame"@
        }),
{
    reveal_strlit("aac");
    reveal_strlit("flac");
    reveal_strlit("wav");
    reveal_strlit("ogg");
    assert("flac"@.len() != "aac"@.len());
    assert("wav"@[0] != "aac"@[0]);
    assert("ogg"@[0] != "aac"@[0] && "ogg"@[0] != "wav"@[0]);
    assert("wav"@.len() != "flac"@.len() && "ogg"@.len() != "flac"@.len());
}

/// A transcoding step encodes with the "encoder" parameter when one is given,
/// else with the encoder of "videoCodec": "h265" with "libx265", "vp9" with
/// "libvpx-vp9", and "h264" (or no codec) with "libx264".
pub proof fn transcode_step_uses_the_codec_encoder(f: Seq<char>, p: ParamMap, out_dir: Seq<char>)
    ensures
        ({
            let run = transcode_step(f, p, out_dir).runs[0];
            let no_encoder = match param_text(p, "encoder"@) {
                Some(e) => e.len() == 0,
                None => true,
            };
            &&& run[0] == "-i"@ && run[1] == f && run[2] == "-c:v"@
            &&& param_text(p, "encoder"@) matches Some(e) ==> (e.len() > 0 ==> run[3] == e)
            &&& no_encoder && param_text(p, "videoCodec"@) == Some("h265"@) ==> run[3] == "libx265"@
            &&& no_encoder && param_text(p, "videoCodec"@) == Some("vp9"@) ==> run[3] == "libvpx-vp9"@
            &&& no_encoder && (param_text(p, "videoCodec"@) == Some("h264"@) || param_text(p, "videoCodec"@) is None)
                ==> run[3] == "libx264"@
        }),
{
    reveal_strlit("h264");
    reveal_strlit("h265");
    reveal_strlit("vp9");
    reveal_strlit("");
    assert("h265"@[3] != "h264"@[3]);
    assert("vp9"@.len() != "h264"@.len() && "vp9"@.len() != "h265"@.len());
}

/// Pictures to "jpg" or "jpeg" are saved as JPEG, to "webp" as lossless WebP,
/// and to "png" (or any other format) by their file extension.
pub proof fn save_method_of_formats(format: Seq<char>)
    ensures
        format == "jpg"@ || format == "jpeg"@ ==> save_method_spec(format) == SaveMethod::Jpeg,
        format == "webp"@ ==> save_method_spec(format) == SaveMethod::WebP,
        format == "png"@ ==> save_method_spec(format) == SaveMethod::ByExtension,
{
    reveal_strlit("jpg");
    reveal_strlit("jpeg");
    reveal_strlit("webp");
    reveal_strlit("png");
    assert("webp"@.len() != "jpg"@.len() && "webp"@[0] != "jpeg"@[0]);
    assert("png"@[0] != "jpg"@[0] && "png"@.len() != "jpeg"@.len() && "png"@.len() != "webp"@.len());
}

/// A picture in a pipeline is scaled only when it exceeds a given limit: to
/// fit both limits when both are given, else to the one limit given.
pub proof fn pipeline_resize_only_beyond_the_limits(width: u32, height: u32, max_width: Option<u32>, max_height: Option<u32>)
    ensures
        (pipeline_resize_spec(width, height, max_width, max_height) == PipelineResize::Keep)
            <==> !((max_width matches Some(w) && width > w) || (max_height matches Some(h) && height > h)),
        pipeline_resize_spec(width, height, max_width, max_height) matches PipelineResize::Fit(w, h)
            ==> max_width == Some(w) && max_height == Some(h),
        pipeline_resize_spec(width, height, max_width, max_height) matches PipelineResize::ToWidth(w)
            ==> max_width == Some(w) && max_height is None && width > w,
        pipeline_resize_spec(width, height, max_width, max_height) matches PipelineResize::ToHeight(h)
            ==> max_height == Some(h) && max_width is None && height > h,
{
}

/// A GIF step makes a palette first and then the GIF from it, both from the
/// same clip ("-ss" start, "-t" duration, "-i" the file); the palette is
/// "palette.png" and the GIF "output.gif" under the output folder, and the
/// palette is removed afterwards. With no parameters the clip starts at
/// "00:00:00", lasts "5" seconds, at 10 frames a second and 480 pixels wide.
pub proof fn gif_step_makes_a_palette_then_the_gif(f: Seq<char>, p: ParamMap, out_dir: Seq<char>)
    ensures
        ({
            let s = gif_step(f, p, out_dir);
            let pal = std_join(out_dir, "palette.png"@);
            &&& s.runs.len() == 2
            &&& s.output == std_join(out_dir, "output.gif"@)
            &&& s.cleanup == Some(pal)
            &&& s.runs[0][0] == "-ss"@ && s.runs[0][2] == "-t"@ && s.runs[0][4] == "-i"@ && s.runs[0][5] == f
            &&& s.runs[0][8] == pal
            &&& s.runs[1][4] == "-i"@ && s.runs[1][5] == f && s.runs[1][6] == "-i"@ && s.runs[1][7] == pal
            &&& s.runs[1][10] == s.output
            &&& s.runs[0][1] == s.runs[1][1] && s.runs[0][3] == s.runs[1][3]
            &&& param_text(p, "start"@) is None ==> s.runs[0][1] == "00:00:00"@
            &&& param_unsigned(p, "duration"@) is None ==> s.runs[0][3] == decimal(5)
            &&& (param_unsigned(p, "fps"@) is None && param_unsigned(p, "width"@) is None)
                ==> s.runs[0][7] == palette_filter(10, 480) && s.runs[1][9] == gif_filter(10, 480)
        }),
{
}

} // verus!
