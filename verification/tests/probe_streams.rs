use ab_av1::ffprobe::{first_video_pix_fmt, frame_rates, has_audio, max_audio_channels, resolution, Stream};

fn stream(kind: &str) -> Stream {
    Stream {
        codec_type: Some(kind.to_string()),
        channels: None,
        width: None,
        height: None,
        pix_fmt: None,
        avg_frame_rate: "0/0".to_string(),
        r_frame_rate: "0/0".to_string(),
    }
}

fn audio(channels: Option<i64>) -> Stream {
    Stream { channels, ..stream("audio") }
}

fn video(w: i64, h: i64, pix: Option<&str>, avg: &str) -> Stream {
    Stream {
        width: Some(w),
        height: Some(h),
        pix_fmt: pix.map(str::to_string),
        avg_frame_rate: avg.to_string(),
        r_frame_rate: "24/1".to_string(),
        ..stream("video")
    }
}

#[test]
fn audio_streams_and_channels() {
    assert!(!has_audio(&vec![]));
    assert!(!has_audio(&vec![video(1280, 720, None, "24/1"), stream("subtitle")]));
    let streams = vec![video(1280, 720, None, "24/1"), audio(Some(2)), audio(None), audio(Some(6))];
    assert!(has_audio(&streams));
    assert_eq!(max_audio_channels(&streams), Some(6));
    assert_eq!(max_audio_channels(&vec![audio(None)]), None);
    // channels of non-audio streams do not count
    let mut odd = video(1, 1, None, "24/1");
    odd.channels = Some(8);
    assert_eq!(max_audio_channels(&vec![odd, audio(Some(2))]), Some(2));
}

#[test]
fn first_video_resolution_and_pixel_format() {
    let streams = vec![
        audio(Some(2)),
        video(-1, 720, None, "24/1"),
        video(1920, 1080, Some("yuv420p10le"), "30000/1001"),
        video(640, 480, Some("yuv420p"), "25/1"),
    ];
    // the first video stream with a usable size
    assert_eq!(resolution(&streams), Some((1920, 1080)));
    assert_eq!(first_video_pix_fmt(&streams), Some("yuv420p10le".to_string()));
    assert_eq!(resolution(&vec![video(5_000_000_000, 1, None, "")]), None);
    assert_eq!(first_video_pix_fmt(&vec![audio(None)]), None);
}

#[test]
fn frame_rates_of_the_first_video_stream() {
    let streams = vec![audio(Some(2)), video(1, 1, None, "30000/1001"), video(1, 1, None, "25/1")];
    assert_eq!(
        frame_rates(&streams).expect("video"),
        ("30000/1001".to_string(), "24/1".to_string())
    );
    let err = frame_rates(&vec![audio(Some(2))]).unwrap_err();
    assert_eq!(err.message(), "no video stream found");
}
