use ab_av1::duration::Duration;
use ab_av1::process::{Chunks, FfmpegOut};

fn progress_fps(out: &Option<FfmpegOut>) -> f32 {
    match out {
        Some(FfmpegOut::Progress { fps, .. }) => fps.parse::<f32>().unwrap(),
        _ => panic!("not progress: {out:?}"),
    }
}

#[test]
fn parse_ffmpeg_progress_chunk() {
    let out = "frame=  288 fps= 94 q=-0.0 size=N/A time=01:23:12.34 bitrate=N/A speed=3.94x    \r";
    let parsed = FfmpegOut::try_parse(out);
    assert_eq!(
        parsed,
        Some(FfmpegOut::Progress {
            frame: 288,
            fps: "94".to_string(),
            time: Duration::new(60 * 60 + 23 * 60 + 12, 340_000_000),
        })
    );
    assert_eq!(progress_fps(&parsed), 94.0);
}

#[test]
fn parse_ffmpeg_progress_line() {
    let out = "frame=  161 fps= 73 q=-0.0 size=  978076kB time=00:00:06.71 bitrate=1193201.6kbits/s dup=13 drop=0 speed=3.03x    ";
    let parsed = FfmpegOut::try_parse(out);
    assert_eq!(
        parsed,
        Some(FfmpegOut::Progress {
            frame: 161,
            fps: "73".to_string(),
            time: Duration::new(6, 710_000_000),
        })
    );
    assert_eq!(progress_fps(&parsed), 73.0);
}

#[test]
fn parse_ffmpeg_progress_na_time() {
    let out = "frame=  288 fps= 94 q=-0.0 size=N/A time=N/A bitrate=N/A speed=3.94x    ";
    assert_eq!(FfmpegOut::try_parse(out), None);
}

#[test]
fn parse_ffmpeg_stream_sizes() {
    let out = "video:2897022kB audio:537162kB subtitle:0kB other streams:0kB global headers:0kB muxing overhead: 0.289700%\n";
    assert_eq!(
        FfmpegOut::try_parse(out),
        Some(FfmpegOut::StreamSizes {
            video: 2897022 * 1024,
            audio: 537162 * 1024,
            subtitle: 0,
            other: 0,
        })
    );
}

#[test]
fn parse_ffmpeg_progress_fractional_fps() {
    let out = "frame=   48 fps=0.0 q=-0.0 size=N/A time=00:00:01.95 bitrate=N/A speed=3.79x";
    assert_eq!(
        FfmpegOut::try_parse(out),
        Some(FfmpegOut::Progress {
            frame: 48,
            fps: "0.0".to_string(),
            time: Duration::new(1, 950_000_000),
        })
    );
}

#[test]
fn parse_ffmpeg_rejects_bad_fps_and_other_lines() {
    assert_eq!(
        FfmpegOut::try_parse("frame=  1 fps=abc q=0 time=00:00:01.00 x"),
        None
    );
    assert_eq!(FfmpegOut::try_parse("Press [q] to stop"), None);
    assert_eq!(
        FfmpegOut::try_parse("video:1kB audio:2kB subtitle:0kB other streams:0kB"),
        None
    );
}

#[test]
fn chunks_keep_the_last_line() {
    let mut chunks = Chunks::default();
    chunks.push(b"first line\nsecond ");
    chunks.push(b"line\r\n");
    assert_eq!(chunks.last_line(), "second line");
    assert_eq!(chunks.out(), b"first line\nsecond line\r\n");
    assert_eq!(chunks.rfind_line(|l| l.starts_with("first")), Some("first line"));
    assert_eq!(chunks.rfind_line(|l| l.starts_with("third")), None);
}

#[test]
fn chunks_drop_oldest_lines_when_full() {
    let mut chunks = Chunks::default();
    let long = vec![b'a'; 20_000];
    chunks.push(&long);
    chunks.push(b"\n");
    chunks.push(&long);
    chunks.push(b"\nend");
    assert!(chunks.out().len() <= 32_000);
    assert!(chunks.out().ends_with(b"\nend"));
    assert_eq!(chunks.last_line(), "end");
}
