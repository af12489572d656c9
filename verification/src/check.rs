//! Link checks: what a probe of a stream tells, what a request's answer
//! decides, and how a channel takes the outcome.
use crate::m3u::{
    opt_audio, opt_video, AudioInfo, AudioInfoView, CheckDataStatus, M3uObject, M3uObjectView,
    OtherStatus, OtherStatusView, VideoInfo, VideoInfoView,
};
use crate::text::{chars_eq, chars_of};
use vstd::prelude::*;

verus! {

/// What a check of a link found: the answer's delay and, when probed, the
/// video and audio streams.
#[derive(Debug)]
pub struct CheckUrlIsAvailableResponse {
    pub delay: i32,
    pub video: Option<VideoInfo>,
    pub audio: Option<AudioInfo>,
}

pub struct CheckResponseView {
    pub delay: i32,
    pub video: Option<VideoInfoView>,
    pub audio: Option<AudioInfoView>,
}

impl View for CheckUrlIsAvailableResponse {
    type V = CheckResponseView;

    open spec fn view(&self) -> CheckResponseView {
        CheckResponseView {
            delay: self.delay,
            video: opt_video(self.video),
            audio: opt_audio(self.audio),
        }
    }
}

/// No delay, no streams.
pub open spec fn empty_response() -> CheckResponseView {
    CheckResponseView { delay: 0, video: None, audio: None }
}

impl CheckUrlIsAvailableResponse {
    pub fn new() -> (r: CheckUrlIsAvailableResponse)
        ensures
            r@ == empty_response(),
    {
        CheckUrlIsAvailableResponse { delay: 0, video: None, audio: None }
    }

    pub fn set_delay(&mut self, delay: i32)
        ensures
            final(self)@ == (CheckResponseView { delay: delay, ..old(self)@ }),
    {
        self.delay = delay
    }

    pub fn set_video(&mut self, video: VideoInfo)
        ensures
            final(self)@ == (CheckResponseView { video: Some(video@), ..old(self)@ }),
    {
        self.video = Some(video)
    }

    pub fn set_audio(&mut self, audio: AudioInfo)
        ensures
            final(self)@ == (CheckResponseView { audio: Some(audio@), ..old(self)@ }),
    {
        self.audio = Some(audio)
    }
}

/// One stream of a probe's report.
#[derive(Debug)]
pub struct FfprobeStream {
    pub codec_type: String,
    pub width: Option<i32>,
    pub height: Option<i32>,
    pub codec_name: String,
    pub channels: Option<i32>,
}

pub struct FfprobeStreamView {
    pub codec_type: Seq<char>,
    pub width: Option<i32>,
    pub height: Option<i32>,
    pub codec_name: Seq<char>,
    pub channels: Option<i32>,
}

impl View for FfprobeStream {
    type V = FfprobeStreamView;

    open spec fn view(&self) -> FfprobeStreamView {
        FfprobeStreamView {
            codec_type: self.codec_type@,
            width: self.width,
            height: self.height,
            codec_name: self.codec_name@,
            channels: self.channels,
        }
    }
}

/// A probe's report: its streams.
#[derive(Debug)]
pub struct Ffprobe {
    pub streams: Vec<FfprobeStream>,
}

/// The views of a run of streams.
pub open spec fn streams_view(s: Seq<FfprobeStream>) -> Seq<FfprobeStreamView> {
    s.map_values(|x: FfprobeStream| x@)
}

/// Every audio stream of `s` tells its number of channels.
pub open spec fn audio_channels_known(s: Seq<FfprobeStreamView>) -> bool {
    forall|i: int| 0 <= i < s.len() && #[trigger] s[i].codec_type == "audio"@ ==> s[i].channels is Some
}

/// The video description of a video stream: its codec, and its size
/// where the report gives it (else zero).
pub open spec fn video_of(x: FfprobeStreamView) -> VideoInfoView {
    VideoInfoView {
        width: match x.width {
            Some(w) => w,
            None => 0,
        },
        height: match x.height {
            Some(h) => h,
            None => 0,
        },
        codec: x.codec_name,
        quality_type: crate::m3u::QualityType::Unknown,
    }
}

/// What a probe's streams `s` tell: the last video stream and the last
/// audio stream (its codec and channels), no delay.
pub open spec fn probe_response(s: Seq<FfprobeStreamView>) -> CheckResponseView
    decreases s.len(),
{
    if s.len() == 0 {
        empty_response()
    } else {
        let r = probe_response(s.drop_last());
        let x = s.last();
        if x.codec_type == "video"@ {
            CheckResponseView { video: Some(video_of(x)), ..r }
        } else if x.codec_type == "audio"@ {
            CheckResponseView {
                audio: Some(
                    AudioInfoView {
                        codec: x.codec_name,
                        channels: match x.channels {
                            Some(c) => c,
                            None => 0,
                        },
                    },
                ),
                ..r
            }
        } else {
            r
        }
    }
}

/// What a probe's report tells of a link (see [`probe_response`]).
pub fn response_from_probe(res_data: Ffprobe) -> (r: CheckUrlIsAvailableResponse)
    requires
        audio_channels_known(streams_view(res_data.streams@)),
    ensures
        r@ == probe_response(streams_view(res_data.streams@)),
{
    let ghost all = streams_view(res_data.streams@);
    let mut body = CheckUrlIsAvailableResponse::new();
    let video_kind = chars_of("video");
    let audio_kind = chars_of("audio");
    for one in it: res_data.streams.into_iter()
        invariant
            streams_view(it.seq()) == all,
            audio_channels_known(all),
            video_kind@ == "video"@,
            audio_kind@ == "audio"@,
            body@ == probe_response(all.take(it.index() as int)),
    {
        let ghost k = it.index() as int;
        proof {
            assert(all[k] == one@);
            assert(all.take(k + 1).drop_last() == all.take(k));
            assert(all.take(k + 1).last() == one@);
        }
        let kind = chars_of(one.codec_type.as_str());
        if chars_eq(&kind, &video_kind) {
            let mut video = VideoInfo::new();
            if let Some(e) = one.width {
                video.set_width(e)
            }
            if let Some(e) = one.height {
                video.set_height(e)
            }
            video.set_codec(one.codec_name);
            body.set_video(video);
        } else if chars_eq(&kind, &audio_kind) {
            let mut audio = AudioInfo::new();
            audio.set_codec(one.codec_name);
            audio.set_channels(one.channels.unwrap());
            body.set_audio(audio);
        }
    }
    proof {
        assert(all.take(all.len() as int) == all);
    }
    body
}

/// Why a link is not usable.
#[derive(Debug, Clone, Copy, PartialEq, Eq, Structural)]
pub enum LinkCheckError {
    /// The answer's status was not a success.
    StatusNotSuccess,
    /// The answer was not an m3u8 playlist.
    NotM3u8,
}

impl LinkCheckError {
    /// The message of the error.
    pub fn message(&self) -> (r: String)
        ensures
            *self == LinkCheckError::StatusNotSuccess ==> r@ == "status is not 200"@,
            *self == LinkCheckError::NotM3u8 ==> r@ == "not a m3u8 file"@,
    {
        match self {
            LinkCheckError::StatusNotSuccess => String::from_str("status is not 200"),
            LinkCheckError::NotM3u8 => String::from_str("not a m3u8 file"),
        }
    }
}

/// What a link check decides once the request is answered. A failed status
/// fails the check; otherwise, with `need_video_info`, the probe's findings
/// `info` are the outcome, else the answer must be an m3u8 playlist. The
/// delay (in milliseconds, cut to `i32`) goes into the outcome.
pub open spec fn link_outcome(
    status_ok: bool,
    delay: i64,
    need_video_info: bool,
    info: Option<CheckResponseView>,
    body_is_m3u8: bool,
) -> Result<CheckResponseView, LinkCheckError> {
    if !status_ok {
        Err(LinkCheckError::StatusNotSuccess)
    } else if need_video_info {
        Ok(CheckResponseView { delay: delay as i32, ..info.unwrap() })
    } else if body_is_m3u8 {
        Ok(CheckResponseView { delay: delay as i32, ..empty_response() })
    } else {
        Err(LinkCheckError::NotM3u8)
    }
}

/// The view of a check's outcome.
pub open spec fn outcome_view(r: Result<CheckUrlIsAvailableResponse, LinkCheckError>) -> Result<
    CheckResponseView,
    LinkCheckError,
> {
    match r {
        Ok(x) => Ok(x@),
        Err(e) => Err(e),
    }
}

/// The view of an optional probe finding.
pub open spec fn opt_response(o: Option<CheckUrlIsAvailableResponse>) -> Option<CheckResponseView> {
    match o {
        Some(x) => Some(x@),
        None => None,
    }
}

/// Decides a link check once the request is answered (see [`link_outcome`]).
pub fn finish_link_check(
    status_ok: bool,
    delay: i64,
    need_video_info: bool,
    info: Option<CheckUrlIsAvailableResponse>,
    body_is_m3u8: bool,
) -> (r: Result<CheckUrlIsAvailableResponse, LinkCheckError>)
    requires
        status_ok && need_video_info ==> info is Some,
    ensures
        outcome_view(r) == link_outcome(
            status_ok,
            delay,
            need_video_info,
            opt_response(info),
            body_is_m3u8,
        ),
{
    if !status_ok {
        return Err(LinkCheckError::StatusNotSuccess);
    }
    if need_video_info {
        let mut data = info.unwrap();
        data.set_delay(delay as i32);
        Ok(data)
    } else if body_is_m3u8 {
        let mut body = CheckUrlIsAvailableResponse::new();
        body.set_delay(delay as i32);
        Ok(body)
    } else {
        Err(LinkCheckError::NotM3u8)
    }
}

/// What a channel becomes after a check with outcome `r`: answering, with
/// the found streams as its further status; or failed.
pub open spec fn checked(o: M3uObjectView, r: Result<CheckResponseView, LinkCheckError>) -> M3uObjectView {
    match r {
        Ok(data) => M3uObjectView {
            status: CheckDataStatus::Success,
            other_status: Some(OtherStatusView { video: data.video, audio: data.audio, network: None }),
            ..o
        },
        Err(_) => M3uObjectView { status: CheckDataStatus::Failed, ..o },
    }
}

impl M3uObject {
    /// Takes the outcome of a check (see [`checked`]).
    pub fn apply_check_result(&mut self, result: Result<CheckUrlIsAvailableResponse, LinkCheckError>)
        ensures
            final(self)@ == checked(old(self)@, outcome_view(result)),
    {
        match result {
            Ok(data) => {
                let mut status = OtherStatus::new();
                match data.audio {
                    Some(a) => status.set_audio(a),
                    None => {},
                }
                match data.video {
                    Some(v) => status.set_video(v),
                    None => {},
                }
                self.set_status(CheckDataStatus::Success);
                self.set_other_status(status)
            },
            Err(_e) => self.set_status(CheckDataStatus::Failed),
        }
    }
}

} // verus!
