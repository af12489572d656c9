use iptv_checker::check::{
    finish_link_check, response_from_probe, CheckUrlIsAvailableResponse, Ffprobe, FfprobeStream,
    LinkCheckError,
};
use iptv_checker::m3u::{AudioInfo, CheckDataStatus, M3uObject, OtherStatus, VideoInfo};

fn stream(kind: &str, w: Option<i32>, h: Option<i32>, codec: &str, ch: Option<i32>) -> FfprobeStream {
    FfprobeStream {
        codec_type: kind.to_string(),
        width: w,
        height: h,
        codec_name: codec.to_string(),
        channels: ch,
    }
}

#[test]
fn probe_report_is_read() {
    let p = Ffprobe {
        streams: vec![
            stream("video", Some(1920), None, "h264", None),
            stream("data", None, None, "bin", None),
            stream("audio", None, None, "aac", Some(2)),
        ],
    };
    let r = response_from_probe(p);
    assert_eq!(r.delay, 0);
    let v = r.video.unwrap();
    assert_eq!((v.width, v.height, v.codec.as_str()), (1920, 0, "h264"));
    let a = r.audio.unwrap();
    assert_eq!((a.codec.as_str(), a.channels), ("aac", 2));
    let empty = response_from_probe(Ffprobe { streams: vec![] });
    assert!(empty.video.is_none() && empty.audio.is_none());
}

#[test]
fn link_check_decisions() {
    let r = finish_link_check(false, 10, false, None, true);
    assert_eq!(r.unwrap_err(), LinkCheckError::StatusNotSuccess);
    let r = finish_link_check(true, 10, false, None, false);
    assert_eq!(r.unwrap_err(), LinkCheckError::NotM3u8);
    let r = finish_link_check(true, 42, false, None, true).unwrap();
    assert_eq!(r.delay, 42);
    assert!(r.video.is_none());
    let mut info = CheckUrlIsAvailableResponse::new();
    info.set_audio(AudioInfo::new());
    let r = finish_link_check(true, 7, true, Some(info), false).unwrap();
    assert_eq!(r.delay, 7);
    assert!(r.audio.is_some());
    assert_eq!(LinkCheckError::StatusNotSuccess.message(), "status is not 200");
    assert_eq!(LinkCheckError::NotM3u8.message(), "not a m3u8 file");
}

#[test]
fn channel_takes_check_outcome() {
    let mut o = M3uObject::new();
    let mut data = CheckUrlIsAvailableResponse::new();
    let mut v = VideoInfo::new();
    v.set_width(1280);
    v.set_height(720);
    v.set_codec("hevc".to_string());
    data.set_video(v);
    data.set_delay(3);
    o.apply_check_result(Ok(data));
    assert_eq!(o.status, CheckDataStatus::Success);
    let s = o.other_status.clone().unwrap();
    assert_eq!(s.video.unwrap().height, 720);
    assert!(s.audio.is_none());
    o.apply_check_result(Err(LinkCheckError::NotM3u8));
    assert_eq!(o.status, CheckDataStatus::Failed);
    let mut st = OtherStatus::new();
    let mut a = AudioInfo::new();
    a.set_codec("mp3".to_string());
    a.set_channels(1);
    st.set_audio(a);
    o.set_other_status(st);
    assert_eq!(o.other_status.unwrap().audio.unwrap().channels, 1);
}
