use clipsta::export::{
    after_run, ffmpeg_args, find_bundled_ffmpeg, find_ffmpeg, nvenc_is_missing, CutRange, Encoder,
    ExportAction, ExportOpts, RunOutcome,
};

fn opts() -> ExportOpts {
    ExportOpts {
        format: None,
        aspect_ratio: None,
        resolution: None,
        encoder: None,
        fps: None,
        trim_start: None,
        trim_end: None,
        cuts: None,
        brightness: None,
        contrast: None,
        saturation: None,
    }
}

fn line(opts: &ExportOpts, encoder: Encoder) -> String {
    ffmpeg_args("in.mp4", "out.mp4", opts, encoder).join(" ")
}

const NVENC: &str = "-c:v h264_nvenc -preset p7 -rc vbr -cq 18 -b:v 20M -maxrate 30M";
const AUDIO: &str = "-c:a aac -b:a 192k out.mp4";

#[test]
fn a_plain_export() {
    assert_eq!(line(&opts(), Encoder::Nvenc), format!("-y -i in.mp4 -r 60 {} {}", NVENC, AUDIO));
    assert_eq!(
        line(&opts(), Encoder::Software),
        format!("-y -i in.mp4 -r 60 -c:v libx264 -preset medium -crf 18 {}", AUDIO)
    );
}

#[test]
fn a_trimmed_export() {
    let mut trimmed = opts();
    trimmed.trim_start = Some(1_500_000);
    trimmed.trim_end = Some(62_045_000);
    assert_eq!(
        line(&trimmed, Encoder::Nvenc),
        format!("-y -ss 1.500 -i in.mp4 -t 60.545 -r 60 {} {}", NVENC, AUDIO)
    );
    trimmed.trim_start = Some(0);
    assert_eq!(
        line(&trimmed, Encoder::Nvenc),
        format!("-y -i in.mp4 -t 62.045 -r 60 {} {}", NVENC, AUDIO)
    );
    trimmed.trim_start = Some(499);
    trimmed.trim_end = Some(999);
    assert_eq!(
        line(&trimmed, Encoder::Nvenc),
        format!("-y -ss 0.000 -i in.mp4 -t 0.001 -r 60 {} {}", NVENC, AUDIO)
    );
    trimmed.trim_start = Some(-5);
    trimmed.trim_end = Some(-5);
    assert_eq!(
        line(&trimmed, Encoder::Nvenc),
        format!("-y -i in.mp4 -r 60 {} {}", NVENC, AUDIO)
    );
}

#[test]
fn filters_are_chained_in_order() {
    let mut all = opts();
    all.resolution = Some("720p".to_string());
    all.aspect_ratio = Some("1:1".to_string());
    all.brightness = Some(90);
    all.saturation = Some(150);
    let args = ffmpeg_args("in.mp4", "out.mp4", &all, Encoder::Nvenc);
    let at = args.iter().position(|a| a == "-vf").unwrap();
    assert_eq!(
        args[at + 1],
        "scale=1280:720,crop=min(iw\\,ih):min(iw\\,ih),eq=brightness=-0.10:contrast=1.00:saturation=1.50"
    );
}

#[test]
fn single_filters() {
    let filter = |opts: &ExportOpts| -> Option<String> {
        let args = ffmpeg_args("in.mp4", "out.mp4", opts, Encoder::Software);
        args.iter().position(|a| a == "-vf").map(|at| args[at + 1].clone())
    };
    for (resolution, expected) in [
        ("480p", Some("scale=854:480")),
        ("720p", Some("scale=1280:720")),
        ("1080p", Some("scale=1920:1080")),
        ("1440p", Some("scale=2560:1440")),
        ("4k", Some("scale=3840:2160")),
        ("source", None),
    ] {
        let mut scaled = opts();
        scaled.resolution = Some(resolution.to_string());
        assert_eq!(filter(&scaled).as_deref(), expected);
    }
    for (aspect, expected) in [
        ("9:16", Some("crop=ih*9/16:ih")),
        ("4:5", Some("crop=ih*4/5:ih")),
        ("16:9", None),
    ] {
        let mut cropped = opts();
        cropped.aspect_ratio = Some(aspect.to_string());
        assert_eq!(filter(&cropped).as_deref(), expected);
    }
    let mut adjusted = opts();
    adjusted.contrast = Some(205);
    assert_eq!(
        filter(&adjusted).as_deref(),
        Some("eq=brightness=0.00:contrast=2.05:saturation=1.00")
    );
}

#[test]
fn fields_without_effect() {
    let mut other = opts();
    other.format = Some("mkv".to_string());
    other.encoder = Some("x265".to_string());
    other.fps = Some(30);
    other.cuts = Some(vec![CutRange { start: 1, end: 2 }]);
    assert_eq!(line(&other, Encoder::Nvenc), line(&opts(), Encoder::Nvenc));
}

fn reply(encoder: Encoder, outcome: RunOutcome) -> Result<String, String> {
    match after_run("in.mp4", "out.mp4", &opts(), encoder, &outcome) {
        ExportAction::Reply(reply) => reply,
        ExportAction::Run(_) => panic!("another run"),
    }
}

#[test]
fn an_export_that_succeeds() {
    assert_eq!(reply(Encoder::Nvenc, RunOutcome::Succeeded), Ok("out.mp4".to_string()));
    assert_eq!(reply(Encoder::Software, RunOutcome::Succeeded), Ok("out.mp4".to_string()));
}

#[test]
fn an_export_falls_back_to_software_once() {
    for errors in ["Cannot load nvcuda.dll\n", "[h264_nvenc @ 0] failed", "No NVENC capable"] {
        let failed = RunOutcome::Failed(errors.to_string());
        match after_run("in.mp4", "out.mp4", &opts(), Encoder::Nvenc, &failed) {
            ExportAction::Run(args) => {
                assert_eq!(args, ffmpeg_args("in.mp4", "out.mp4", &opts(), Encoder::Software))
            }
            ExportAction::Reply(_) => panic!("no other run"),
        }
        assert!(reply(Encoder::Software, failed).is_err());
    }
    assert!(!nvenc_is_missing("no such file"));
}

#[test]
fn an_export_that_fails() {
    let failed = |text: &str| RunOutcome::Failed(text.to_string());
    let error = |encoder: Encoder, outcome: RunOutcome| reply(encoder, outcome).unwrap_err();
    assert_eq!(
        error(Encoder::Nvenc, failed("first\r\nlast line\r\n")),
        "Export failed: FFmpeg failed: last line"
    );
    assert_eq!(error(Encoder::Nvenc, failed("")), "Export failed: FFmpeg failed: unknown error");
    assert_eq!(error(Encoder::Software, failed("a\nb")), "Export failed: Export failed: b");
    assert_eq!(error(Encoder::Software, failed("")), "Export failed: Export failed: unknown");
    assert_eq!(
        error(Encoder::Nvenc, RunOutcome::NotFound),
        "Export failed: FFmpeg not found. Install via: winget install ffmpeg"
    );
    assert_eq!(error(Encoder::Software, RunOutcome::NotFound), "Export failed: FFmpeg not found");
    assert_eq!(
        error(Encoder::Nvenc, RunOutcome::NotStarted("denied".to_string())),
        "Export failed: Failed to run FFmpeg: denied"
    );
    assert_eq!(
        error(Encoder::Software, RunOutcome::NotStarted("denied".to_string())),
        "Export failed: FFmpeg failed: denied"
    );
}

#[test]
fn ffmpeg_is_looked_for_in_order() {
    let at = |present: &'static str| {
        find_ffmpeg(
            Some("C:\\app"),
            Some("  D:\\tools\\ffmpeg.exe \r\nE:\\other.exe\r\n"),
            move |path: &String| path == present,
        )
    };
    for path in [
        "C:\\app\\ffmpeg.exe",
        "C:\\app\\resources\\ffmpeg.exe",
        "D:\\tools\\ffmpeg.exe",
        "C:\\Program Files\\ffmpeg\\bin\\ffmpeg.exe",
        "C:\\ffmpeg\\bin\\ffmpeg.exe",
    ] {
        assert_eq!(at(path).as_deref(), Some(path));
    }
    assert_eq!(at("E:\\other.exe"), None);
    let first = find_ffmpeg(Some("C:\\app"), None, |_: &String| true);
    assert_eq!(first.as_deref(), Some("C:\\app\\ffmpeg.exe"));
    let bundled = find_bundled_ffmpeg(Some("C:\\app\\"), |p: &String| p.contains("resources"));
    assert_eq!(bundled.as_deref(), Some("C:\\app\\resources\\ffmpeg.exe"));
    assert_eq!(find_bundled_ffmpeg(None, |_: &String| true), None);
}
