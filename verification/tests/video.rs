use filetoolkit::commands::video::{
    check_ffmpeg, cut_video, detect_gpu_encoders, extract_audio, ffmpeg_args, ffmpeg_error, last_line, transcode_video,
    trim_end_matches, video_to_gif, GpuKind,
};
use filetoolkit::text::{contains, lines};

fn strings(v: &[&str]) -> Vec<String> {
    v.iter().map(|s| s.to_string()).collect()
}

const TAIL: [&str; 4] = ["-y", "-hide_banner", "-loglevel", "error"];

fn with_tail(v: &[&str]) -> Vec<String> {
    let mut r = strings(v);
    r.extend(strings(&TAIL));
    r
}

#[test]
fn lines_follow_str_lines() {
    for s in ["", "a", "a\n", "a\nb", "a\r\nb\r\n", "\n", "a\n\nb", "x\r", "a\rb\n"] {
        let expected: Vec<String> = s.lines().map(|l| l.to_string()).collect();
        assert_eq!(lines(s), expected, "{:?}", s);
    }
}

#[test]
fn last_line_or_whole_text() {
    assert_eq!(last_line("first\nsecond\n"), "second");
    assert_eq!(last_line(""), "");
    assert_eq!(ffmpeg_error("bad\ninput.mp4: No such file\n"), "ffmpeg 错误: input.mp4: No such file");
}

#[test]
fn contains_finds_substrings() {
    assert!(contains("v_h264_nvenc x", "nvenc"));
    assert!(contains("abc", ""));
    assert!(!contains("ab", "abc"));
}

#[test]
fn common_options_are_appended() {
    assert_eq!(ffmpeg_args(strings(&["-i", "a"])), with_tail(&["-i", "a"]));
}

#[test]
fn cut_modes() {
    let fast = cut_video("in.mp4", "00:00:05", "00:00:09", "out.mp4", None);
    assert_eq!(
        fast.runs,
        vec![with_tail(&["-ss", "00:00:05", "-i", "in.mp4", "-to", "00:00:09", "-c", "copy", "-avoid_negative_ts", "make_zero", "out.mp4"])]
    );
    assert_eq!(fast.done, "视频剪切完成: out.mp4");
    assert!(fast.cleanup.is_none());
    let accurate = cut_video("in.mp4", "1", "2", "o.mp4", Some("accurate".to_string()));
    assert_eq!(
        accurate.runs,
        vec![with_tail(&["-ss", "1", "-i", "in.mp4", "-to", "2", "-c:v", "libx264", "-c:a", "aac", "o.mp4"])]
    );
    let other = cut_video("in.mp4", "1", "2", "o.mp4", Some("slow".to_string()));
    assert_eq!(other.runs[0][7], "copy");
}

#[test]
fn transcode_codecs_and_quality() {
    let h264 = transcode_video("in.mov", None, None, "out.mp4").ok().unwrap();
    assert_eq!(
        h264.runs,
        vec![with_tail(&["-i", "in.mov", "-c:v", "libx264", "-crf", "23", "-preset", "medium", "-c:a", "aac", "out.mp4"])]
    );
    let vp9 = transcode_video("in.mov", Some("vp9".to_string()), Some(30), "out.webm").ok().unwrap();
    assert_eq!(
        vp9.runs,
        vec![with_tail(&["-i", "in.mov", "-c:v", "libvpx-vp9", "-crf", "30", "-b:v", "0", "-c:a", "libopus", "out.webm"])]
    );
    assert_eq!(vp9.done, "转码完成: out.webm");
    assert_eq!(transcode_video("a", Some("av1".to_string()), None, "b").err().unwrap(), "不支持的编码格式: av1");
}

#[test]
fn gif_in_two_runs() {
    let job = video_to_gif("in.mp4", "3", "2.5", 12, 320, "clip.gif");
    assert_eq!(
        job.runs,
        vec![
            with_tail(&["-ss", "3", "-t", "2.5", "-i", "in.mp4", "-vf", "fps=12,scale=320:-1:flags=lanczos,palettegen", "clip_palette.png"]),
            with_tail(&[
                "-ss", "3", "-t", "2.5", "-i", "in.mp4", "-i", "clip_palette.png", "-lavfi",
                "fps=12,scale=320:-1:flags=lanczos[x];[x][1:v]paletteuse", "clip.gif",
            ]),
        ]
    );
    assert_eq!(job.cleanup, Some("clip_palette.png".to_string()));
    assert_eq!(job.done, "GIF 生成完成: clip.gif");
    assert_eq!(trim_end_matches("a.gif.gif", ".gif"), "a");
    assert_eq!(trim_end_matches("a.png", ".gif"), "a.png");
}

#[test]
fn audio_formats() {
    let mp3 = extract_audio("v.mp4", "mp3", "192k", "a.mp3").ok().unwrap();
    assert_eq!(mp3.runs, vec![with_tail(&["-i", "v.mp4", "-vn", "-c:a", "libmp3lame", "-b:a", "192k", "a.mp3"])]);
    let wav = extract_audio("v.mp4", "wav", "192k", "a.wav").ok().unwrap();
    assert_eq!(wav.runs, vec![with_tail(&["-i", "v.mp4", "-vn", "-c:a", "pcm_s16le", "a.wav"])]);
    assert_eq!(wav.done, "音频提取完成: a.wav");
    assert_eq!(extract_audio("v", "wma", "1k", "a").err().unwrap(), "不支持的音频格式: wma");
}

#[test]
fn ffmpeg_version_check() {
    assert_eq!(check_ffmpeg(Some((true, "ffmpeg version 6.0\nbuilt with gcc".to_string()))), Ok("ffmpeg version 6.0".to_string()));
    assert_eq!(check_ffmpeg(Some((true, String::new()))), Ok("ffmpeg".to_string()));
    assert_eq!(check_ffmpeg(Some((false, "x".to_string()))), Err("ffmpeg 未正确安装".to_string()));
    assert!(check_ffmpeg(None).unwrap_err().starts_with("ffmpeg 未安装"));
}

#[test]
fn gpu_encoders_once_each_in_order() {
    let listing = " V....D h264_QSV   Intel\n V....D hevc_nvenc  NVIDIA\n V....D h264_nvenc NVIDIA\n V....D libx264\n V....D h264_amf AMD\n";
    assert_eq!(detect_gpu_encoders(listing), vec![GpuKind::Qsv, GpuKind::Nvenc, GpuKind::Amf]);
    assert_eq!(GpuKind::Nvenc.name(), "NVENC");
    assert_eq!(GpuKind::Amf.codec(), "h264/h265");
    assert!(detect_gpu_encoders("").is_empty());
}
