//! Video and audio commands. Each is carried out by ffmpeg; what is decided
//! here is the exact argument list of every run, what a run's output means
//! and what is reported.
use vstd::prelude::*;
use crate::text::{push_str, push_decimal, string_of, decimal, str_eq, lines, lines_spec, to_lowercase, std_lowercase, contains, contains_spec};
use crate::pipeline::preview::views;

verus! {

/// Owned copies of some texts, in order.
pub fn owned_texts(parts: &Vec<&str>) -> (r: Vec<String>)
    ensures
        views(r@) == parts@.map_values(|p: &str| p@),
{
    let mut r: Vec<String> = Vec::new();
    let mut i: usize = 0;
    while i < parts.len()
        invariant
            i <= parts.len(),
            views(r@) =~= parts@.map_values(|p: &str| p@).take(i as int),
        decreases parts.len() - i,
    {
        let ghost before = views(r@);
        r.push(parts[i].to_string());
        assert(views(r@) =~= before.push(parts@[i as int]@));
        i = i + 1;
    }
    r
}

/// The options every ffmpeg run ends with: overwrite, no banner, errors only.
pub open spec fn ffmpeg_tail() -> Seq<Seq<char>> {
    seq!["-y"@, "-hide_banner"@, "-loglevel"@, "error"@]
}

/// The whole argument list of an ffmpeg run with the given arguments.
pub fn ffmpeg_args(args: Vec<String>) -> (r: Vec<String>)
    ensures
        views(r@) == views(args@) + ffmpeg_tail(),
{
    let mut r = args;
    let ghost before = views(r@);
    r.push("-y".to_string());
    r.push("-hide_banner".to_string());
    r.push("-loglevel".to_string());
    r.push("error".to_string());
    assert(views(r@) =~= before + ffmpeg_tail());
    r
}

/// The last line of a text, or the whole text when it has no line.
pub open spec fn last_line_spec(s: Seq<char>) -> Seq<char> {
    let ls = lines_spec(s);
    if ls.len() > 0 {
        ls.last()
    } else {
        s
    }
}

/// The last line of a text, or the whole text when it has no line.
pub fn last_line(s: &str) -> (r: String)
    ensures
        r@ == last_line_spec(s@),
{
    let ls = lines(s);
    proof {
        assert(views(ls@) == lines_spec(s@));
    }
    if ls.len() > 0 {
        ls[ls.len() - 1].clone()
    } else {
        s.to_string()
    }
}

/// The error of an ffmpeg run that failed, from what it wrote to its error output.
pub fn ffmpeg_error(stderr: &str) -> (r: String)
    ensures
        r@ == "ffmpeg 错误: "@ + last_line_spec(stderr@),
{
    let tail = last_line(stderr);
    let mut m: Vec<char> = Vec::new();
    push_str(&mut m, "ffmpeg 错误: ");
    push_str(&mut m, tail.as_str());
    string_of(m.as_slice())
}

/// The error when ffmpeg could not be started at all.
pub fn ffmpeg_spawn_error(reason: &str) -> (r: String)
    ensures
        r@ == "ffmpeg 执行失败(是否已安装?): "@ + reason@,
{
    let mut m: Vec<char> = Vec::new();
    push_str(&mut m, "ffmpeg 执行失败(是否已安装?): ");
    push_str(&mut m, reason);
    string_of(m.as_slice())
}

/// What the version check answers: `run` is `None` when ffmpeg could not be
/// started, else whether it exited successfully and what it printed.
pub open spec fn check_ffmpeg_spec(run: Option<(bool, Seq<char>)>) -> Result<Seq<char>, Seq<char>> {
    match run {
        None => Err("ffmpeg 未安装。请从 https://ffmpeg.org/download.html 下载并添加到系统 PATH 中。"@),
        Some((ok, out)) => if ok {
            if lines_spec(out).len() > 0 {
                Ok(lines_spec(out)[0])
            } else {
                Ok("ffmpeg"@)
            }
        } else {
            Err("ffmpeg 未正确安装"@)
        },
    }
}

/// Whether ffmpeg is usable, and its version line, from how `ffmpeg -version` ran.
pub fn check_ffmpeg(run: Option<(bool, String)>) -> (r: Result<String, String>)
    ensures
        check_ffmpeg_spec(
            match run {
                Some(p) => Some((p.0, p.1@)),
                None => None,
            },
        ) == match r {
            Ok(v) => Ok::<Seq<char>, Seq<char>>(v@),
            Err(e) => Err::<Seq<char>, Seq<char>>(e@),
        },
{
    match run {
        None => Err("ffmpeg 未安装。请从 https://ffmpeg.org/download.html 下载并添加到系统 PATH 中。".to_string()),
        Some((ok, out)) => {
            if ok {
                let ls = lines(out.as_str());
                proof {
                    assert(views(ls@) == lines_spec(out@));
                }
                if ls.len() > 0 {
                    Ok(ls[0].clone())
                } else {
                    Ok("ffmpeg".to_string())
                }
            } else {
                Err("ffmpeg 未正确安装".to_string())
            }
        },
    }
}

/// A piece of work for ffmpeg: its runs, in order, each with its whole
/// argument list; a file to remove once the last run has been tried; and
/// the message when every run succeeded. The first run that fails ends it.
pub struct FfmpegJob {
    pub runs: Vec<Vec<String>>,
    pub cleanup: Option<String>,
    pub done: String,
}

/// A job as plain values.
pub struct JobView {
    pub runs: Seq<Seq<Seq<char>>>,
    pub cleanup: Option<Seq<char>>,
    pub done: Seq<char>,
}

/// The plain view of a job.
pub open spec fn job_view(j: FfmpegJob) -> JobView {
    JobView {
        runs: j.runs@.map_values(|r: Vec<String>| views(r@)),
        cleanup: match j.cleanup {
            Some(c) => Some(c@),
            None => None,
        },
        done: j.done@,
    }
}

/// `prefix` followed by `text`.
fn message(prefix: &str, text: &str) -> (r: String)
    ensures
        r@ == prefix@ + text@,
{
    let mut m: Vec<char> = Vec::new();
    push_str(&mut m, prefix);
    push_str(&mut m, text);
    string_of(m.as_slice())
}

/// A job of one run with the given arguments.
fn single_run(args: Vec<String>, done: String) -> (j: FfmpegJob)
    ensures
        job_view(j) == (JobView { runs: seq![views(args@) + ffmpeg_tail()], cleanup: None, done: done@ }),
{
    let full = ffmpeg_args(args);
    let mut runs: Vec<Vec<String>> = Vec::new();
    runs.push(full);
    let j = FfmpegJob { runs, cleanup: None, done };
    assert(job_view(j).runs =~~= seq![views(args@) + ffmpeg_tail()]);
    j
}

/// The arguments of a cut: a copy of the streams in fast mode, else a
/// re-encoding.
pub open spec fn cut_args_spec(input: Seq<char>, start: Seq<char>, end: Seq<char>, output: Seq<char>, fast: bool) -> Seq<Seq<char>> {
    if fast {
        seq!["-ss"@, start, "-i"@, input, "-to"@, end, "-c"@, "copy"@, "-avoid_negative_ts"@, "make_zero"@, output]
    } else {
        seq!["-ss"@, start, "-i"@, input, "-to"@, end, "-c:v"@, "libx264"@, "-c:a"@, "aac"@, output]
    }
}

/// Cutting a clip out of a video; the fast mode is used unless the mode is
/// "accurate".
pub fn cut_video(input: &str, start: &str, end: &str, output: &str, mode: Option<String>) -> (j: FfmpegJob)
    ensures
        job_view(j) == (JobView {
            runs: seq![cut_args_spec(input@, start@, end@, output@, !(mode matches Some(m) && m@ == "accurate"@)) + ffmpeg_tail()],
            cleanup: None,
            done: "视频剪切完成: "@ + output@,
        }),
{
    let fast = match &mode {
        Some(m) => !str_eq(m.as_str(), "accurate"),
        None => true,
    };
    let args = if fast {
        owned_texts(&vec!["-ss", start, "-i", input, "-to", end, "-c", "copy", "-avoid_negative_ts", "make_zero", output])
    } else {
        owned_texts(&vec!["-ss", start, "-i", input, "-to", end, "-c:v", "libx264", "-c:a", "aac", output])
    };
    assert(views(args@) =~= cut_args_spec(input@, start@, end@, output@, fast));
    single_run(args, message("视频剪切完成: ", output))
}

/// The arguments of a transcoding to `codec` at quality `q`, if the codec is known.
pub open spec fn transcode_args_spec(input: Seq<char>, codec: Seq<char>, q: Seq<char>, output: Seq<char>) -> Option<Seq<Seq<char>>> {
    if codec == "h264"@ {
        Some(seq!["-i"@, input, "-c:v"@, "libx264"@, "-crf"@, q, "-preset"@, "medium"@, "-c:a"@, "aac"@, output])
    } else if codec == "h265"@ {
        Some(seq!["-i"@, input, "-c:v"@, "libx265"@, "-crf"@, q, "-preset"@, "medium"@, "-c:a"@, "aac"@, output])
    } else if codec == "vp9"@ {
        Some(seq!["-i"@, input, "-c:v"@, "libvpx-vp9"@, "-crf"@, q, "-b:v"@, "0"@, "-c:a"@, "libopus"@, output])
    } else {
        None
    }
}

/// The decimal text of a number.
pub fn decimal_text(n: u64) -> (r: String)
    ensures
        r@ == decimal(n as nat),
{
    let mut m: Vec<char> = Vec::new();
    push_decimal(&mut m, n as u128);
    assert(m@ =~= decimal(n as nat));
    string_of(m.as_slice())
}

/// Transcoding a video: the codec defaults to h264 and the quality (CRF) to 23.
pub fn transcode_video(input: &str, output_format: Option<String>, crf: Option<u8>, output: &str) -> (r: Result<FfmpegJob, String>)
    ensures
        ({
            let codec = match output_format {
                Some(f) => f@,
                None => "h264"@,
            };
            let q = decimal(
                match crf {
                    Some(c) => c as nat,
                    None => 23,
                },
            );
            match transcode_args_spec(input@, codec, q, output@) {
                Some(args) => r matches Ok(j) && job_view(j) == (JobView {
                    runs: seq![args + ffmpeg_tail()],
                    cleanup: None,
                    done: "转码完成: "@ + output@,
                }),
                None => r matches Err(e) && e@ == "不支持的编码格式: "@ + codec,
            }
        }),
{
    let codec: String = match &output_format {
        Some(f) => f.clone(),
        None => "h264".to_string(),
    };
    let c = codec.as_str();
    let quality = decimal_text(
        match crf {
            Some(v) => v as u64,
            None => 23,
        },
    );
    let q = quality.as_str();
    let args = if str_eq(c, "h264") {
        owned_texts(&vec!["-i", input, "-c:v", "libx264", "-crf", q, "-preset", "medium", "-c:a", "aac", output])
    } else if str_eq(c, "h265") {
        owned_texts(&vec!["-i", input, "-c:v", "libx265", "-crf", q, "-preset", "medium", "-c:a", "aac", output])
    } else if str_eq(c, "vp9") {
        owned_texts(&vec!["-i", input, "-c:v", "libvpx-vp9", "-crf", q, "-b:v", "0", "-c:a", "libopus", output])
    } else {
        return Err(message("不支持的编码格式: ", c));
    };
    assert(Some(views(args@)) =~~= transcode_args_spec(input@, codec@, quality@, output@));
    Ok(single_run(args, message("转码完成: ", output)))
}

/// `s` with every trailing occurrence of `suffix` removed (`str::trim_end_matches`).
pub open spec fn trim_end_matches_spec(s: Seq<char>, suffix: Seq<char>) -> Seq<char>
    decreases s.len(),
{
    if suffix.len() > 0 && s.len() >= suffix.len() && s.skip(s.len() - suffix.len()) == suffix {
        trim_end_matches_spec(s.take(s.len() - suffix.len()), suffix)
    } else {
        s
    }
}

/// Whether the first `end` characters of `a` end with `b`.
fn ends_at(a: &Vec<char>, b: &Vec<char>, end: usize) -> (r: bool)
    requires
        end <= a.len(),
    ensures
        r == (end >= b.len() && a@.take(end as int).skip(end - b.len()) == b@),
{
    if end < b.len() {
        return false;
    }
    let off = end - b.len();
    let mut i: usize = 0;
    while i < b.len()
        invariant
            i <= b.len(),
            off + b.len() == end,
            end <= a.len(),
            forall|k: int| 0 <= k < i ==> a@[off + k] == b@[k],
        decreases b.len() - i,
    {
        if a[off + i] != b[i] {
            assert(a@.take(end as int).skip(off as int)[i as int] != b@[i as int]);
            return false;
        }
        i = i + 1;
    }
    assert(a@.take(end as int).skip(off as int) =~= b@);
    true
}

/// `s` with every trailing occurrence of `suffix` removed.
pub fn trim_end_matches(s: &str, suffix: &str) -> (r: String)
    ensures
        r@ == trim_end_matches_spec(s@, suffix@),
{
    let a = crate::text::chars_of(s);
    let b = crate::text::chars_of(suffix);
    let mut end: usize = a.len();
    assert(a@.take(a.len() as int) =~= a@);
    if b.len() > 0 {
        while ends_at(&a, &b, end)
            invariant
                end <= a.len(),
                b.len() > 0,
                a@ == s@,
                b@ == suffix@,
                trim_end_matches_spec(a@.take(end as int), b@) == trim_end_matches_spec(s@, suffix@),
            decreases end,
        {
            assert(a@.take(end as int).take(end - b.len()) =~= a@.take(end - b.len()));
            end = end - b.len();
        }
    }
    let mut out: Vec<char> = Vec::new();
    let mut k: usize = 0;
    while k < end
        invariant
            k <= end,
            end <= a.len(),
            out@ == a@.take(k as int),
        decreases end - k,
    {
        out.push(a[k]);
        assert(out@ =~= a@.take(k + 1));
        k = k + 1;
    }
    string_of(out.as_slice())
}

/// The video filter of the palette run and that of the GIF run.
pub open spec fn palette_filter(fps: nat, width: nat) -> Seq<char> {
    "fps="@ + decimal(fps) + ",scale="@ + decimal(width) + ":-1:flags=lanczos,palettegen"@
}

/// The filter graph of the GIF run, which applies the palette.
pub open spec fn gif_filter(fps: nat, width: nat) -> Seq<char> {
    "fps="@ + decimal(fps) + ",scale="@ + decimal(width) + ":-1:flags=lanczos[x];[x][1:v]paletteuse"@
}

/// The palette file used while making `output`.
pub open spec fn palette_path(output: Seq<char>) -> Seq<char> {
    trim_end_matches_spec(output, ".gif"@) + "_palette.png"@
}

/// Making a GIF of a clip in two runs: one computes a palette, the other
/// applies it; the palette file is removed afterwards. `duration` is the
/// clip's length in seconds, as text.
pub fn video_to_gif(input: &str, start: &str, duration: &str, fps: u32, width: u32, output: &str) -> (j: FfmpegJob)
    ensures
        job_view(j) == (JobView {
            runs: seq![
                seq!["-ss"@, start@, "-t"@, duration@, "-i"@, input@, "-vf"@, palette_filter(fps as nat, width as nat), palette_path(output@)] + ffmpeg_tail(),
                seq!["-ss"@, start@, "-t"@, duration@, "-i"@, input@, "-i"@, palette_path(output@), "-lavfi"@, gif_filter(fps as nat, width as nat), output@] + ffmpeg_tail(),
            ],
            cleanup: Some(palette_path(output@)),
            done: "GIF 生成完成: "@ + output@,
        }),
{
    let base = trim_end_matches(output, ".gif");
    let palette = message(base.as_str(), "_palette.png");
    let mut f1: Vec<char> = Vec::new();
    push_str(&mut f1, "fps=");
    push_decimal(&mut f1, fps as u128);
    push_str(&mut f1, ",scale=");
    push_decimal(&mut f1, width as u128);
    push_str(&mut f1, ":-1:flags=lanczos,palettegen");
    let vf = string_of(f1.as_slice());
    let mut f2: Vec<char> = Vec::new();
    push_str(&mut f2, "fps=");
    push_decimal(&mut f2, fps as u128);
    push_str(&mut f2, ",scale=");
    push_decimal(&mut f2, width as u128);
    push_str(&mut f2, ":-1:flags=lanczos[x];[x][1:v]paletteuse");
    let lavfi = string_of(f2.as_slice());
    let a1 = owned_texts(&vec!["-ss", start, "-t", duration, "-i", input, "-vf", vf.as_str(), palette.as_str()]);
    let a2 = owned_texts(&vec!["-ss", start, "-t", duration, "-i", input, "-i", palette.as_str(), "-lavfi", lavfi.as_str(), output]);
    let r1 = ffmpeg_args(a1);
    let r2 = ffmpeg_args(a2);
    let mut runs: Vec<Vec<String>> = Vec::new();
    runs.push(r1);
    runs.push(r2);
    let j = FfmpegJob { runs, cleanup: Some(palette), done: message("GIF 生成完成: ", output) };
    assert(job_view(j).runs =~~= seq![
        seq!["-ss"@, start@, "-t"@, duration@, "-i"@, input@, "-vf"@, palette_filter(fps as nat, width as nat), palette_path(output@)] + ffmpeg_tail(),
        seq!["-ss"@, start@, "-t"@, duration@, "-i"@, input@, "-i"@, palette_path(output@), "-lavfi"@, gif_filter(fps as nat, width as nat), output@] + ffmpeg_tail(),
    ]);
    j
}

/// The arguments of an audio extraction to `format`, if the format is known;
/// lossless formats take no bit rate.
pub open spec fn audio_args_spec(input: Seq<char>, format: Seq<char>, bitrate: Seq<char>, output: Seq<char>) -> Option<Seq<Seq<char>>> {
    if format == "mp3"@ {
        Some(seq!["-i"@, input, "-vn"@, "-c:a"@, "libmp3lame"@, "-b:a"@, bitrate, output])
    } else if format == "aac"@ {
        Some(seq!["-i"@, input, "-vn"@, "-c:a"@, "aac"@, "-b:a"@, bitrate, output])
    } else if format == "flac"@ {
        Some(seq!["-i"@, input, "-vn"@, "-c:a"@, "flac"@, output])
    } else if format == "ogg"@ {
        Some(seq!["-i"@, input, "-vn"@, "-c:a"@, "libvorbis"@, "-b:a"@, bitrate, output])
    } else if format == "wav"@ {
        Some(seq!["-i"@, input, "-vn"@, "-c:a"@, "pcm_s16le"@, output])
    } else {
        None
    }
}

/// Extracting the audio of a file into one of mp3, aac, flac, ogg or wav.
pub fn extract_audio(input: &str, format: &str, bitrate: &str, output: &str) -> (r: Result<FfmpegJob, String>)
    ensures
        match audio_args_spec(input@, format@, bitrate@, output@) {
            Some(args) => r matches Ok(j) && job_view(j) == (JobView {
                runs: seq![args + ffmpeg_tail()],
                cleanup: None,
                done: "音频提取完成: "@ + output@,
            }),
            None => r matches Err(e) && e@ == "不支持的音频格式: "@ + format@,
        },
{
    let args = if str_eq(format, "mp3") {
        owned_texts(&vec!["-i", input, "-vn", "-c:a", "libmp3lame", "-b:a", bitrate, output])
    } else if str_eq(format, "aac") {
        owned_texts(&vec!["-i", input, "-vn", "-c:a", "aac", "-b:a", bitrate, output])
    } else if str_eq(format, "flac") {
        owned_texts(&vec!["-i", input, "-vn", "-c:a", "flac", output])
    } else if str_eq(format, "ogg") {
        owned_texts(&vec!["-i", input, "-vn", "-c:a", "libvorbis", "-b:a", bitrate, output])
    } else if str_eq(format, "wav") {
        owned_texts(&vec!["-i", input, "-vn", "-c:a", "pcm_s16le", output])
    } else {
        return Err(message("不支持的音频格式: ", format));
    };
    assert(Some(views(args@)) =~~= audio_args_spec(input@, format@, bitrate@, output@));
    Ok(single_run(args, message("音频提取完成: ", output)))
}

/// A kind of hardware video encoder that ffmpeg may offer.
#[derive(PartialEq, Eq, Structural, Clone, Copy, Debug)]
pub enum GpuKind {
    Nvenc,
    Qsv,
    Amf,
}

impl GpuKind {
    /// The name the toolkit shows for this encoder.
    pub fn name(&self) -> (r: String)
        ensures
            r@ == match self {
                GpuKind::Nvenc => "NVENC"@,
                GpuKind::Qsv => "QSV"@,
                GpuKind::Amf => "AMF"@,
            },
    {
        match self {
            GpuKind::Nvenc => "NVENC".to_string(),
            GpuKind::Qsv => "QSV".to_string(),
            GpuKind::Amf => "AMF".to_string(),
        }
    }

    /// The codecs this encoder handles.
    pub fn codec(&self) -> (r: String)
        ensures
            r@ == "h264/h265"@,
    {
        "h264/h265".to_string()
    }
}

/// The encoder a line of `ffmpeg -encoders` (lower-cased) announces, if any.
pub open spec fn classify_line(lower: Seq<char>) -> Option<GpuKind> {
    if contains_spec(lower, "nvenc"@) || contains_spec(lower, "h264_nvenc"@) || contains_spec(lower, "hevc_nvenc"@) {
        Some(GpuKind::Nvenc)
    } else if contains_spec(lower, "qsv"@) || contains_spec(lower, "h264_qsv"@) {
        Some(GpuKind::Qsv)
    } else if contains_spec(lower, "amf"@) || contains_spec(lower, "h264_amf"@) {
        Some(GpuKind::Amf)
    } else {
        None
    }
}

/// The encoders announced, each once, in the order of their first line.
pub open spec fn encoders_spec(kinds: Seq<Option<GpuKind>>) -> Seq<GpuKind>
    decreases kinds.len(),
{
    if kinds.len() == 0 {
        Seq::empty()
    } else {
        let r = encoders_spec(kinds.drop_last());
        match kinds.last() {
            Some(k) => if r.contains(k) {
                r
            } else {
                r.push(k)
            },
            None => r,
        }
    }
}

/// What each line of a listing announces.
pub open spec fn line_kinds(listing: Seq<char>) -> Seq<Option<GpuKind>> {
    lines_spec(listing).map_values(|l: Seq<char>| classify_line(std_lowercase(l)))
}

fn has_kind(v: &Vec<GpuKind>, k: GpuKind) -> (r: bool)
    ensures
        r == v@.contains(k),
{
    let mut i: usize = 0;
    while i < v.len()
        invariant
            i <= v.len(),
            forall|t: int| 0 <= t < i ==> v@[t] != k,
        decreases v.len() - i,
    {
        if v[i] == k {
            assert(v@[i as int] == k);
            return true;
        }
        i = i + 1;
    }
    false
}

/// The hardware encoders that a listing of `ffmpeg -encoders` offers.
pub fn detect_gpu_encoders(listing: &str) -> (r: Vec<GpuKind>)
    ensures
        r@ == encoders_spec(line_kinds(listing@)),
{
    let ls = lines(listing);
    let ghost kinds = line_kinds(listing@);
    proof {
        assert(views(ls@) == lines_spec(listing@));
    }
    let mut r: Vec<GpuKind> = Vec::new();
    let mut i: usize = 0;
    assert(kinds.take(0) =~= Seq::<Option<GpuKind>>::empty());
    while i < ls.len()
        invariant
            i <= ls.len(),
            views(ls@) == lines_spec(listing@),
            kinds == line_kinds(listing@),
            kinds.len() == ls.len(),
            r@ == encoders_spec(kinds.take(i as int)),
        decreases ls.len() - i,
    {
        assert(kinds.take(i + 1).drop_last() =~= kinds.take(i as int));
        let lower = to_lowercase(ls[i].as_str());
        let l = lower.as_str();
        let kind = if contains(l, "nvenc") || contains(l, "h264_nvenc") || contains(l, "hevc_nvenc") {
            Some(GpuKind::Nvenc)
        } else if contains(l, "qsv") || contains(l, "h264_qsv") {
            Some(GpuKind::Qsv)
        } else if contains(l, "amf") || contains(l, "h264_amf") {
            Some(GpuKind::Amf)
        } else {
            None
        };
        assert(ls@[i as int]@ == lines_spec(listing@)[i as int]);
        assert(kind == kinds[i as int]);
        assert(kinds.take(i + 1).last() == kind);
        match kind {
            Some(k) => {
                if !has_kind(&r, k) {
                    r.push(k);
                }
            },
            None => {},
        }
        i = i + 1;
    }
    assert(kinds.take(ls.len() as int) =~= kinds);
    r
}

/// A transcoding encodes with the encoder of the requested codec: "h264" with
/// "libx264", "h265" with "libx265" (both at the given quality, preset medium,
/// AAC audio) and "vp9" with "libvpx-vp9" (Opus audio); any other codec is
/// refused. The input is read with "-i" and the output comes last.
pub proof fn transcode_uses_the_codec_encoder(input: Seq<char>, codec: Seq<char>, q: Seq<char>, output: Seq<char>)
    ensures
        codec == "h264"@ ==> transcode_args_spec(input, codec, q, output)
            == Some(seq!["-i"@, input, "-c:v"@, "libx264"@, "-crf"@, q, "-preset"@, "medium"@, "-c:a"@, "aac"@, output]),
        codec == "h265"@ ==> transcode_args_spec(input, codec, q, output)
            == Some(seq!["-i"@, input, "-c:v"@, "libx265"@, "-crf"@, q, "-preset"@, "medium"@, "-c:a"@, "aac"@, output]),
        codec == "vp9"@ ==> transcode_args_spec(input, codec, q, output)
            == Some(seq!["-i"@, input, "-c:v"@, "libvpx-vp9"@, "-crf"@, q, "-b:v"@, "0"@, "-c:a"@, "libopus"@, output]),
        codec != "h264"@ && codec != "h265"@ && codec != "vp9"@ ==> transcode_args_spec(input, codec, q, output) is None,
{
    reveal_strlit("h264");
    reveal_strlit("h265");
    reveal_strlit("vp9");
    assert("h265"@[3] != "h264"@[3]);
    assert("vp9"@.len() != "h264"@.len() && "vp9"@.len() != "h265"@.len());
}

/// An audio extraction encodes with the codec of its format, at the given bit
/// rate for the lossy ones: "mp3" with "libmp3lame", "aac" with "aac", "ogg"
/// with "libvorbis"; "flac" with "flac" and "wav" with "pcm_s16le" take no bit
/// rate. Any other format is refused.
pub proof fn audio_extraction_uses_the_format_codec(input: Seq<char>, format: Seq<char>, bitrate: Seq<char>, output: Seq<char>)
    ensures
        format == "mp3"@ ==> audio_args_spec(input, format, bitrate, output)
            == Some(seq!["-i"@, input, "-vn"@, "-c:a"@, "libmp3lame"@, "-b:a"@, bitrate, output]),
        format == "aac"@ ==> audio_args_spec(input, format, bitrate, output)
            == Some(seq!["-i"@, input, "-vn"@, "-c:a"@, "aac"@, "-b:a"@, bitrate, output]),
        format == "ogg"@ ==> audio_args_spec(input, format, bitrate, output)
            == Some(seq!["-i"@, input, "-vn"@, "-c:a"@, "libvorbis"@, "-b:a"@, bitrate, output]),
        format == "flac"@ ==> audio_args_spec(input, format, bitrate, output)
            == Some(seq!["-i"@, input, "-vn"@, "-c:a"@, "flac"@, output]),
        format == "wav"@ ==> audio_args_spec(input, format, bitrate, output)
            == Some(seq!["-i"@, input, "-vn"@, "-c:a"@, "pcm_s16le"@, output]),
        format != "mp3"@ && format != "aac"@ && format != "ogg"@ && format != "flac"@ && format != "wav"@
            ==> audio_args_spec(input, format, bitrate, output) is None,
{
    reveal_strlit("mp3");
    reveal_strlit("aac");
    reveal_strlit("flac");
    reveal_strlit("ogg");
    reveal_strlit("wav");
    assert("aac"@[0] != "mp3"@[0]);
    assert("flac"@.len() != "mp3"@.len() && "flac"@.len() != "aac"@.len());
    assert("ogg"@[0] != "mp3"@[0] && "ogg"@[0] != "aac"@[0]);
    assert("wav"@[0] != "mp3"@[0] && "wav"@[0] != "aac"@[0] && "wav"@.len() != "flac"@.len() && "wav"@[0] != "ogg"@[0]);
}

/// A fast cut copies the streams ("-c" "copy"); an accurate one re-encodes
/// them with "libx264" and "aac". Both start at `start`, read `input`, stop at
/// `end` and write `output` last.
pub proof fn cut_copies_when_fast(input: Seq<char>, start: Seq<char>, end: Seq<char>, output: Seq<char>, fast: bool)
    ensures
        ({
            let a = cut_args_spec(input, start, end, output, fast);
            &&& a.len() == 11
            &&& a[0] == "-ss"@ && a[1] == start && a[2] == "-i"@ && a[3] == input && a[4] == "-to"@ && a[5] == end
            &&& a[10] == output
            &&& fast ==> a[6] == "-c"@ && a[7] == "copy"@
            &&& !fast ==> a[6] == "-c:v"@ && a[7] == "libx264"@ && a[8] == "-c:a"@ && a[9] == "aac"@
        }),
{
}

/// Every ffmpeg run ends with "-y" (overwrite), "-hide_banner", "-loglevel"
/// "error", in that order.
pub proof fn ffmpeg_runs_end_quietly()
    ensures
        ffmpeg_tail() == seq!["-y"@, "-hide_banner"@, "-loglevel"@, "error"@],
{
}

} // verus!
