//! Batch image compression: what a request must hold, where each output
//! goes, when an image is scaled down and how it is encoded.
use vstd::prelude::*;
use crate::text::{push_str, push_decimal, string_of, decimal, str_eq, to_lowercase, std_lowercase};
use crate::paths::{std_file_stem, std_join, file_stem, join};
use crate::pipeline::model::{ParamMap, param_text, param_unsigned};

verus! {

/// The file extension written for an output format.
pub open spec fn image_ext(format: Seq<char>) -> Seq<char> {
    if format == "jpeg"@ {
        "jpg"@
    } else {
        format
    }
}

/// The stem of an input path, "output" when it has none.
pub open spec fn stem_or_output(input: Seq<char>) -> Seq<char> {
    match std_file_stem(input) {
        Some(s) => s,
        None => "output"@,
    }
}

/// The `attempt`-th place tried for the output of `input`: first
/// "stem.ext" in the output directory, then "stem_1.ext", "stem_2.ext", and
/// so on, until one is free.
pub open spec fn output_candidate(input: Seq<char>, output_dir: Seq<char>, format: Seq<char>, attempt: nat) -> Seq<char> {
    let stem = stem_or_output(input);
    let ext = image_ext(format);
    if attempt == 0 {
        std_join(output_dir, stem + "."@ + ext)
    } else {
        std_join(output_dir, stem + "_"@ + decimal(attempt) + "."@ + ext)
    }
}

/// The `attempt`-th candidate output path for `input`; the caller takes the
/// first one that does not exist yet.
pub fn get_output_path(input: &str, output_dir: &str, format: &str, attempt: u64) -> (r: String)
    ensures
        r@ == output_candidate(input@, output_dir@, format@, attempt as nat),
{
    let stem = match file_stem(input) {
        Some(s) => s,
        None => "output".to_string(),
    };
    let ext = if str_eq(format, "jpeg") {
        "jpg".to_string()
    } else {
        format.to_string()
    };
    let mut m: Vec<char> = Vec::new();
    push_str(&mut m, stem.as_str());
    if attempt > 0 {
        push_str(&mut m, "_");
        push_decimal(&mut m, attempt as u128);
    }
    push_str(&mut m, ".");
    push_str(&mut m, ext.as_str());
    let name = string_of(m.as_slice());
    join(output_dir, name.as_str())
}

/// The output formats the compressor writes.
pub open spec fn supported_format(f: Seq<char>) -> bool {
    f == "jpg"@ || f == "jpeg"@ || f == "png"@ || f == "webp"@
}

/// What a compression request is answered before any work: the output format,
/// lower-cased, or why the request is refused.
pub open spec fn check_request_spec(file_count: nat, quality: u8, format: Seq<char>) -> Result<Seq<char>, Seq<char>> {
    if quality > 100 {
        Err("质量参数必须在 0-100 之间"@)
    } else if !supported_format(std_lowercase(format)) {
        Err("不支持的输出格式: "@ + format + ", 可选: jpg, png, webp"@)
    } else if file_count == 0 {
        Err("文件列表不能为空"@)
    } else {
        Ok(std_lowercase(format))
    }
}

/// Checks a compression request: quality at most 100, a known format, at
/// least one file.
pub fn check_compress_request(file_count: usize, quality: u8, format: &str) -> (r: Result<String, String>)
    ensures
        match r {
            Ok(f) => check_request_spec(file_count as nat, quality, format@) == Ok::<Seq<char>, Seq<char>>(f@),
            Err(e) => check_request_spec(file_count as nat, quality, format@) == Err::<Seq<char>, Seq<char>>(e@),
        },
{
    if quality > 100 {
        return Err("质量参数必须在 0-100 之间".to_string());
    }
    let fmt = to_lowercase(format);
    let f = fmt.as_str();
    if !(str_eq(f, "jpg") || str_eq(f, "jpeg") || str_eq(f, "png") || str_eq(f, "webp")) {
        let mut m: Vec<char> = Vec::new();
        push_str(&mut m, "不支持的输出格式: ");
        push_str(&mut m, format);
        push_str(&mut m, ", 可选: jpg, png, webp");
        return Err(string_of(m.as_slice()));
    }
    if file_count == 0 {
        return Err("文件列表不能为空".to_string());
    }
    Ok(fmt)
}

/// The settings of one image task.
pub struct ImageParams {
    pub quality: u8,
    pub format: String,
    pub max_width: Option<u32>,
    pub max_height: Option<u32>,
}

/// The settings read from a task's parameters: quality (default 80) and the
/// size limits keep the low bits that fit their types; the format defaults to "jpg".
pub open spec fn image_params_spec(p: ParamMap) -> (u8, Seq<char>, Option<u32>, Option<u32>) {
    (
        match param_unsigned(p, "quality"@) {
            Some(q) => (q % 256) as u8,
            None => 80,
        },
        match param_text(p, "format"@) {
            Some(f) => f,
            None => "jpg"@,
        },
        match param_unsigned(p, "maxWidth"@) {
            Some(w) => Some((w % 0x1_0000_0000) as u32),
            None => None,
        },
        match param_unsigned(p, "maxHeight"@) {
            Some(h) => Some((h % 0x1_0000_0000) as u32),
            None => None,
        },
    )
}

/// The low byte of a number.
fn low_u8(n: u64) -> (r: u8)
    ensures
        r == (n % 256) as u8,
{
    (n % 256) as u8
}

/// The low 32 bits of a number.
fn low_u32(n: u64) -> (r: u32)
    ensures
        r == (n % 0x1_0000_0000) as u32,
{
    (n % 0x1_0000_0000) as u32
}

/// Reads the settings of an image task from its parameters.
pub fn image_params(p: &ParamMap) -> (r: ImageParams)
    ensures
        (r.quality, r.format@, r.max_width, r.max_height) == image_params_spec(*p),
{
    let quality = match p.get_unsigned("quality") {
        Some(q) => low_u8(q),
        None => 80,
    };
    let format = match p.get_text("format") {
        Some(f) => f,
        None => "jpg".to_string(),
    };
    let max_width = match p.get_unsigned("maxWidth") {
        Some(w) => Some(low_u32(w)),
        None => None,
    };
    let max_height = match p.get_unsigned("maxHeight") {
        Some(h) => Some(low_u32(h)),
        None => None,
    };
    ImageParams { quality, format, max_width, max_height }
}

/// The box an image of `width` x `height` is scaled into, keeping its
/// proportions, or nothing when it already fits. A missing limit leaves that
/// side unbounded.
pub open spec fn resize_box_spec(width: u32, height: u32, max_width: Option<u32>, max_height: Option<u32>) -> Option<(u32, u32)> {
    match (max_width, max_height) {
        (Some(w), Some(h)) => if width > w || height > h {
            Some((w, h))
        } else {
            None
        },
        (Some(w), None) => if width > w {
            Some((w, u32::MAX))
        } else {
            None
        },
        (None, Some(h)) => if height > h {
            Some((u32::MAX, h))
        } else {
            None
        },
        (None, None) => None,
    }
}

/// Decides whether, and into what box, an image is scaled down.
pub fn resize_box(width: u32, height: u32, max_width: Option<u32>, max_height: Option<u32>) -> (r: Option<(u32, u32)>)
    ensures
        r == resize_box_spec(width, height, max_width, max_height),
{
    match (max_width, max_height) {
        (Some(w), Some(h)) => if width > w || height > h {
            Some((w, h))
        } else {
            None
        },
        (Some(w), None) => if width > w {
            Some((w, u32::MAX))
        } else {
            None
        },
        (None, Some(h)) => if height > h {
            Some((u32::MAX, h))
        } else {
            None
        },
        (None, None) => None,
    }
}

/// How an image is written.
#[derive(PartialEq, Eq, Structural, Clone, Copy, Debug)]
pub enum ImageEncoding {
    /// JPEG at the task's quality.
    Jpeg,
    /// Lossless PNG.
    Png,
    /// Lossless WebP.
    WebP,
}

/// The encoding of an output format, if it is one the compressor writes.
pub open spec fn encoding_spec(format: Seq<char>) -> Option<ImageEncoding> {
    if format == "jpg"@ || format == "jpeg"@ {
        Some(ImageEncoding::Jpeg)
    } else if format == "png"@ {
        Some(ImageEncoding::Png)
    } else if format == "webp"@ {
        Some(ImageEncoding::WebP)
    } else {
        None
    }
}

/// The encoding for an output format; none for a format it does not write.
pub fn image_encoding(format: &str) -> (r: Option<ImageEncoding>)
    ensures
        r == encoding_spec(format@),
{
    if str_eq(format, "jpg") || str_eq(format, "jpeg") {
        Some(ImageEncoding::Jpeg)
    } else if str_eq(format, "png") {
        Some(ImageEncoding::Png)
    } else if str_eq(format, "webp") {
        Some(ImageEncoding::WebP)
    } else {
        None
    }
}

/// The message of a finished image task.
pub fn processed_message(input: &str) -> (r: String)
    ensures
        r@ == "处理完成: "@ + input@,
{
    let mut m: Vec<char> = Vec::new();
    push_str(&mut m, "处理完成: ");
    push_str(&mut m, input);
    string_of(m.as_slice())
}

/// A request with files, a quality of at most 100 and a format that is, in
/// lower case, "jpg", "jpeg", "png" or "webp" is accepted with that
/// lower-cased format; with any other format it is refused, naming the format
/// and the choices.
pub proof fn compress_request_accepts_the_listed_formats(file_count: nat, quality: u8, format: Seq<char>)
    ensures
        quality <= 100 && file_count > 0 && (std_lowercase(format) == "jpg"@ || std_lowercase(format) == "jpeg"@
            || std_lowercase(format) == "png"@ || std_lowercase(format) == "webp"@)
            ==> check_request_spec(file_count, quality, format) == Ok::<Seq<char>, Seq<char>>(std_lowercase(format)),
        quality <= 100 && !(std_lowercase(format) == "jpg"@ || std_lowercase(format) == "jpeg"@
            || std_lowercase(format) == "png"@ || std_lowercase(format) == "webp"@)
            ==> check_request_spec(file_count, quality, format) == Err::<Seq<char>, Seq<char>>("不支持的输出格式: "@ + format + ", 可选: jpg, png, webp"@),
        quality > 100 ==> check_request_spec(file_count, quality, format) is Err,
{
}

/// The compressor writes "jpg" and "jpeg" as JPEG, "png" as PNG and "webp" as
/// WebP, each under that extension ("jpeg" under ".jpg"); it writes no other
/// format.
pub proof fn image_formats_and_their_encodings(format: Seq<char>)
    ensures
        format == "jpg"@ || format == "jpeg"@ ==> encoding_spec(format) == Some(ImageEncoding::Jpeg) && image_ext(format) == "jpg"@,
        format == "png"@ ==> encoding_spec(format) == Some(ImageEncoding::Png) && image_ext(format) == "png"@,
        format == "webp"@ ==> encoding_spec(format) == Some(ImageEncoding::WebP) && image_ext(format) == "webp"@,
        encoding_spec(format) is Some <==> (format == "jpg"@ || format == "jpeg"@ || format == "png"@ || format == "webp"@),
{
    reveal_strlit("jpg");
    reveal_strlit("jpeg");
    reveal_strlit("webp");
    reveal_strlit("png");
    assert("webp"@.len() != "jpg"@.len() && "webp"@[0] != "jpeg"@[0]);
    assert("png"@[0] != "jpg"@[0] && "png"@.len() != "jpeg"@.len() && "png"@.len() != "webp"@.len());
}

/// An image is scaled only when a given limit is exceeded, and then into the
/// box of the given limits, a missing limit leaving that side unbounded.
pub proof fn resize_only_beyond_the_limits(width: u32, height: u32, max_width: Option<u32>, max_height: Option<u32>)
    ensures
        resize_box_spec(width, height, max_width, max_height) is Some
            <==> ((max_width matches Some(w) && width > w) || (max_height matches Some(h) && height > h)),
        resize_box_spec(width, height, max_width, max_height) matches Some((bw, bh)) ==> {
            &&& bw == match max_width { Some(w) => w, None => u32::MAX }
            &&& bh == match max_height { Some(h) => h, None => u32::MAX }
        },
{
}

/// An image task's settings default to quality 80 and format "jpg", with no
/// size limits, when its parameters give none.
pub proof fn image_params_defaults(p: ParamMap)
    ensures
        param_unsigned(p, "quality"@) is None ==> image_params_spec(p).0 == 80,
        param_text(p, "format"@) is None ==> image_params_spec(p).1 == "jpg"@,
        param_text(p, "format"@) matches Some(f) ==> image_params_spec(p).1 == f,
        param_unsigned(p, "quality"@) matches Some(q) ==> (q <= 255 ==> image_params_spec(p).0 == q),
        param_unsigned(p, "maxWidth"@) is None ==> image_params_spec(p).2 is None,
        param_unsigned(p, "maxHeight"@) is None ==> image_params_spec(p).3 is None,
{
}

} // verus!
