//! The playlist model: channels (`M3uObject`) with their extended
//! attributes, check status and media information, and their lists.
use crate::text::{chars_of, int_chars, int_text, lowercase, push_all, replace_all, replace_chars, string_of, to_lower};
use vstd::prelude::*;

verus! {

/// The text of an optional string.
pub open spec fn opt_text(o: Option<String>) -> Option<Seq<char>> {
    match o {
        Some(s) => Some(s@),
        None => None,
    }
}

/// A copy of an optional string.
fn copy_opt_string(o: &Option<String>) -> (r: Option<String>)
    ensures
        opt_text(r) == opt_text(*o),
{
    match o {
        Some(s) => Some(s.clone()),
        None => None,
    }
}

// ---------------------------------------------------------------------
// Extended attributes of a channel
// ---------------------------------------------------------------------

/// Extended attributes of a channel (`tvg-*` and `group-title` of an
/// `#EXTINF` line, plus what a check found out).
#[derive(Debug, Clone)]
pub struct M3uExtend {
    pub group_title: String,
    pub tv_logo: String,
    pub tv_language: String,
    pub tv_country: String,
    pub tv_id: String,
    pub user_agent: String,
    pub thumbnail: Option<String>,
    pub video_width: u32,
    pub video_height: u32,
}

pub struct M3uExtendView {
    pub group_title: Seq<char>,
    pub tv_logo: Seq<char>,
    pub tv_language: Seq<char>,
    pub tv_country: Seq<char>,
    pub tv_id: Seq<char>,
    pub user_agent: Seq<char>,
    pub thumbnail: Option<Seq<char>>,
    pub video_width: u32,
    pub video_height: u32,
}

impl View for M3uExtend {
    type V = M3uExtendView;

    open spec fn view(&self) -> M3uExtendView {
        M3uExtendView {
            group_title: self.group_title@,
            tv_logo: self.tv_logo@,
            tv_language: self.tv_language@,
            tv_country: self.tv_country@,
            tv_id: self.tv_id@,
            user_agent: self.user_agent@,
            thumbnail: opt_text(self.thumbnail),
            video_width: self.video_width,
            video_height: self.video_height,
        }
    }
}

/// The view of an optional extension.
pub open spec fn opt_extend(o: Option<M3uExtend>) -> Option<M3uExtendView> {
    match o {
        Some(e) => Some(e@),
        None => None,
    }
}

/// Empty attributes: every text empty, no thumbnail, zero size.
pub open spec fn new_extend_view() -> M3uExtendView {
    M3uExtendView {
        group_title: Seq::empty(),
        tv_logo: Seq::empty(),
        tv_language: Seq::empty(),
        tv_country: Seq::empty(),
        tv_id: Seq::empty(),
        user_agent: Seq::empty(),
        thumbnail: None,
        video_width: 0,
        video_height: 0,
    }
}

impl M3uExtend {
    /// Empty attributes (see [`new_extend_view`]).
    pub fn new() -> (r: M3uExtend)
        ensures
            r@ == new_extend_view(),
    {
        M3uExtend {
            group_title: String::new(),
            tv_logo: String::new(),
            tv_language: String::new(),
            tv_country: String::new(),
            tv_id: String::new(),
            user_agent: String::new(),
            thumbnail: None,
            video_width: 0,
            video_height: 0,
        }
    }

    /// A copy with the same attributes.
    pub fn duplicate(&self) -> (r: M3uExtend)
        ensures
            r@ == self@,
    {
        M3uExtend {
            group_title: self.group_title.clone(),
            tv_logo: self.tv_logo.clone(),
            tv_language: self.tv_language.clone(),
            tv_country: self.tv_country.clone(),
            tv_id: self.tv_id.clone(),
            user_agent: self.user_agent.clone(),
            thumbnail: copy_opt_string(&self.thumbnail),
            video_width: self.video_width,
            video_height: self.video_height,
        }
    }

    pub fn set_group_title(&mut self, group_title: String)
        ensures
            final(self)@ == (M3uExtendView { group_title: group_title@, ..old(self)@ }),
    {
        self.group_title = group_title
    }

    pub fn set_tv_logo(&mut self, tv_logo: String)
        ensures
            final(self)@ == (M3uExtendView { tv_logo: tv_logo@, ..old(self)@ }),
    {
        self.tv_logo = tv_logo
    }

    pub fn set_thumbnail(&mut self, thumbnail: String)
        ensures
            final(self)@ == (M3uExtendView { thumbnail: Some(thumbnail@), ..old(self)@ }),
    {
        self.thumbnail = Some(thumbnail)
    }

    pub fn set_tv_language(&mut self, tv_language: String)
        ensures
            final(self)@ == (M3uExtendView { tv_language: tv_language@, ..old(self)@ }),
    {
        self.tv_language = tv_language
    }

    pub fn set_tv_country(&mut self, tv_country: String)
        ensures
            final(self)@ == (M3uExtendView { tv_country: tv_country@, ..old(self)@ }),
    {
        self.tv_country = tv_country
    }

    pub fn set_tv_id(&mut self, tv_id: String)
        ensures
            final(self)@ == (M3uExtendView { tv_id: tv_id@, ..old(self)@ }),
    {
        self.tv_id = tv_id
    }

    pub fn set_user_agent(&mut self, user_agent: String)
        ensures
            final(self)@ == (M3uExtendView { user_agent: user_agent@, ..old(self)@ }),
    {
        self.user_agent = user_agent
    }
}

// ---------------------------------------------------------------------
// Check status and media information
// ---------------------------------------------------------------------

/// Where a channel stands in a check.
#[derive(Debug, Clone, Copy, PartialEq, Eq, Structural)]
pub enum CheckDataStatus {
    /// Not checked yet.
    Unchecked,
    /// Checked and reachable.
    Success,
    /// Checked and not usable (timeout, bad answer).
    Failed,
}

/// The quality class of a video stream.
#[derive(Debug, Clone, Copy, PartialEq, Eq, Structural)]
pub enum QualityType {
    Unknown,
    Sd,
    Hd,
    Fhd,
    Uhd,
    Fuhd,
}

/// What a probe found out of a video stream.
#[derive(Debug, Clone)]
pub struct VideoInfo {
    pub width: i32,
    pub height: i32,
    pub codec: String,
    pub quality_type: QualityType,
}

pub struct VideoInfoView {
    pub width: i32,
    pub height: i32,
    pub codec: Seq<char>,
    pub quality_type: QualityType,
}

impl View for VideoInfo {
    type V = VideoInfoView;

    open spec fn view(&self) -> VideoInfoView {
        VideoInfoView {
            width: self.width,
            height: self.height,
            codec: self.codec@,
            quality_type: self.quality_type,
        }
    }
}

impl VideoInfo {
    /// Zero size, empty codec, unknown quality.
    pub fn new() -> (r: VideoInfo)
        ensures
            r@ == (VideoInfoView {
                width: 0,
                height: 0,
                codec: Seq::empty(),
                quality_type: QualityType::Unknown,
            }),
    {
        VideoInfo { width: 0, height: 0, codec: String::new(), quality_type: QualityType::Unknown }
    }

    /// A copy with the same description.
    pub fn duplicate(&self) -> (r: VideoInfo)
        ensures
            r@ == self@,
    {
        VideoInfo {
            width: self.width,
            height: self.height,
            codec: self.codec.clone(),
            quality_type: self.quality_type,
        }
    }

    pub fn set_width(&mut self, width: i32)
        ensures
            final(self)@ == (VideoInfoView { width: width, ..old(self)@ }),
    {
        self.width = width
    }

    pub fn set_height(&mut self, height: i32)
        ensures
            final(self)@ == (VideoInfoView { height: height, ..old(self)@ }),
    {
        self.height = height
    }

    pub fn set_codec(&mut self, codec: String)
        ensures
            final(self)@ == (VideoInfoView { codec: codec@, ..old(self)@ }),
    {
        self.codec = codec
    }
}

/// What a probe found out of an audio stream.
#[derive(Debug, Clone)]
pub struct AudioInfo {
    pub codec: String,
    pub channels: i32,
}

pub struct AudioInfoView {
    pub codec: Seq<char>,
    pub channels: i32,
}

impl View for AudioInfo {
    type V = AudioInfoView;

    open spec fn view(&self) -> AudioInfoView {
        AudioInfoView { codec: self.codec@, channels: self.channels }
    }
}

impl AudioInfo {
    /// Empty codec, no channels.
    pub fn new() -> (r: AudioInfo)
        ensures
            r@ == (AudioInfoView { codec: Seq::empty(), channels: 0 }),
    {
        AudioInfo { codec: String::new(), channels: 0 }
    }

    /// A copy with the same description.
    pub fn duplicate(&self) -> (r: AudioInfo)
        ensures
            r@ == self@,
    {
        AudioInfo { codec: self.codec.clone(), channels: self.channels }
    }

    pub fn set_codec(&mut self, codec: String)
        ensures
            final(self)@ == (AudioInfoView { codec: codec@, ..old(self)@ }),
    {
        self.codec = codec
    }

    pub fn set_channels(&mut self, channels: i32)
        ensures
            final(self)@ == (AudioInfoView { channels: channels, ..old(self)@ }),
    {
        self.channels = channels
    }
}

/// Network state of a channel.
#[derive(Debug, Clone, Copy)]
pub struct NetworkInfo {
    pub delay: i32,
}

/// The view of an optional video description.
pub open spec fn opt_video(o: Option<VideoInfo>) -> Option<VideoInfoView> {
    match o {
        Some(v) => Some(v@),
        None => None,
    }
}

/// The view of an optional audio description.
pub open spec fn opt_audio(o: Option<AudioInfo>) -> Option<AudioInfoView> {
    match o {
        Some(a) => Some(a@),
        None => None,
    }
}

/// What a check found out of a channel besides its status.
#[derive(Debug, Clone)]
pub struct OtherStatus {
    pub video: Option<VideoInfo>,
    pub audio: Option<AudioInfo>,
    pub network: Option<NetworkInfo>,
}

pub struct OtherStatusView {
    pub video: Option<VideoInfoView>,
    pub audio: Option<AudioInfoView>,
    pub network: Option<NetworkInfo>,
}

impl View for OtherStatus {
    type V = OtherStatusView;

    open spec fn view(&self) -> OtherStatusView {
        OtherStatusView {
            video: opt_video(self.video),
            audio: opt_audio(self.audio),
            network: self.network,
        }
    }
}

/// The view of an optional further status.
pub open spec fn opt_other(o: Option<OtherStatus>) -> Option<OtherStatusView> {
    match o {
        Some(s) => Some(s@),
        None => None,
    }
}

impl OtherStatus {
    /// Nothing known.
    pub fn new() -> (r: OtherStatus)
        ensures
            r@ == (OtherStatusView { video: None, audio: None, network: None }),
    {
        OtherStatus { video: None, audio: None, network: None }
    }

    /// A copy with the same findings.
    pub fn duplicate(&self) -> (r: OtherStatus)
        ensures
            r@ == self@,
    {
        OtherStatus {
            video: match &self.video {
                Some(v) => Some(v.duplicate()),
                None => None,
            },
            audio: match &self.audio {
                Some(a) => Some(a.duplicate()),
                None => None,
            },
            network: self.network,
        }
    }

    pub fn set_video(&mut self, video: VideoInfo)
        ensures
            final(self)@ == (OtherStatusView { video: Some(video@), ..old(self)@ }),
    {
        self.video = Some(video)
    }

    pub fn set_audio(&mut self, audio: AudioInfo)
        ensures
            final(self)@ == (OtherStatusView { audio: Some(audio@), ..old(self)@ }),
    {
        self.audio = Some(audio)
    }
}

// ---------------------------------------------------------------------
// Channels
// ---------------------------------------------------------------------

/// One channel of a playlist.
#[derive(Debug, Clone)]
pub struct M3uObject {
    pub index: i32,
    /// Where the stream is.
    pub url: String,
    /// The name shown.
    pub name: String,
    /// Extended attributes.
    pub extend: Option<M3uExtend>,
    /// The name searched and grouped by.
    pub search_name: String,
    /// The playlist text of the entry.
    pub raw: String,
    pub status: CheckDataStatus,
    pub other_status: Option<OtherStatus>,
}

pub struct M3uObjectView {
    pub index: i32,
    pub url: Seq<char>,
    pub name: Seq<char>,
    pub extend: Option<M3uExtendView>,
    pub search_name: Seq<char>,
    pub raw: Seq<char>,
    pub status: CheckDataStatus,
    pub other_status: Option<OtherStatusView>,
}

impl View for M3uObject {
    type V = M3uObjectView;

    open spec fn view(&self) -> M3uObjectView {
        M3uObjectView {
            index: self.index,
            url: self.url@,
            name: self.name@,
            extend: opt_extend(self.extend),
            search_name: self.search_name@,
            raw: self.raw@,
            status: self.status,
            other_status: opt_other(self.other_status),
        }
    }
}

/// The views of a run of channels.
pub open spec fn objs(v: Seq<M3uObject>) -> Seq<M3uObjectView> {
    v.map_values(|o: M3uObject| o@)
}

/// The new channel: index 0, every text empty, no extension, unchecked.
pub open spec fn empty_obj() -> M3uObjectView {
    M3uObjectView {
        index: 0,
        url: Seq::empty(),
        name: Seq::empty(),
        extend: None,
        search_name: Seq::empty(),
        raw: Seq::empty(),
        status: CheckDataStatus::Unchecked,
        other_status: None,
    }
}

/// The attributes that `generate_raw` writes into an `#EXTINF` line. All
/// three carry the channel's `tvg-id` value, as the playlist writer has it.
pub open spec fn extinf_attrs(e: Option<M3uExtendView>) -> Seq<char> {
    match e {
        Some(x) => " tvg-id=\""@ + x.tv_id + "\""@ + " tvg-logo=\""@ + x.tv_id + "\""@
            + " group-title=\""@ + x.tv_id + "\""@,
        None => Seq::empty(),
    }
}

/// The playlist entry that `generate_raw` writes for a channel.
pub open spec fn raw_text(o: M3uObjectView) -> Seq<char> {
    "#EXTINF:-1 "@ + extinf_attrs(o.extend) + ","@ + o.name + "\n"@ + o.url
}

/// A channel renamed to `c`: search name and name become `c`, and every
/// occurrence of the old name in the entry text is replaced by `c`.
pub open spec fn renamed(o: M3uObjectView, c: Seq<char>) -> M3uObjectView {
    M3uObjectView { search_name: c, name: c, raw: replace_all(o.raw, o.name, c), ..o }
}

impl M3uObject {
    pub fn new() -> (r: M3uObject)
        ensures
            r@ == empty_obj(),
    {
        M3uObject {
            index: 0,
            url: String::new(),
            name: String::new(),
            extend: None,
            search_name: String::new(),
            raw: String::new(),
            status: CheckDataStatus::Unchecked,
            other_status: None,
        }
    }

    /// A copy of the channel.
    pub fn duplicate(&self) -> (r: M3uObject)
        ensures
            r@ == self@,
    {
        M3uObject {
            index: self.index,
            url: self.url.clone(),
            name: self.name.clone(),
            extend: self.get_extend(),
            search_name: self.search_name.clone(),
            raw: self.raw.clone(),
            status: self.status,
            other_status: match &self.other_status {
                Some(s) => Some(s.duplicate()),
                None => None,
            },
        }
    }

    /// The channel itself.
    pub fn get_obj(self) -> (r: M3uObject)
        ensures
            r@ == self@,
    {
        self
    }

    pub fn set_index(&mut self, index: i32)
        ensures
            final(self)@ == (M3uObjectView { index: index, ..old(self)@ }),
    {
        self.index = index;
    }

    /// A copy of the extended attributes.
    pub fn get_extend(&self) -> (r: Option<M3uExtend>)
        ensures
            opt_extend(r) == self@.extend,
    {
        match &self.extend {
            Some(e) => Some(e.duplicate()),
            None => None,
        }
    }

    /// Renames the channel to what `clean` makes of its search name: name
    /// and search name become that text, and in the entry text every
    /// occurrence of the old name is replaced by it.
    pub fn rename_name<F: Fn(String) -> String>(&mut self, clean: &F)
        requires
            forall|s: String| clean.requires((s,)),
        ensures
            exists|c: String|
                clean.ensures((old(self).search_name,), c) && final(self)@ == renamed(
                    old(self)@,
                    c@,
                ),
    {
        let name = chars_of(self.name.as_str());
        let rename = clean(self.search_name.clone());
        let ghost c = rename;
        let new_name = chars_of(rename.as_str());
        let raw = chars_of(self.raw.as_str());
        let replaced = replace_chars(&raw, &name, &new_name);
        self.search_name = rename.clone();
        self.name = rename;
        self.raw = string_of(replaced.as_slice());
        assert(final(self)@ == renamed(old(self)@, c@));
    }

    pub fn set_url(&mut self, url: String)
        ensures
            final(self)@ == (M3uObjectView { url: url@, ..old(self)@ }),
    {
        self.url = url
    }

    pub fn set_name(&mut self, name: String)
        ensures
            final(self)@ == (M3uObjectView { name: name@, ..old(self)@ }),
    {
        self.name = name
    }

    /// A copy of the url.
    pub fn get_url(&self) -> (r: String)
        ensures
            r@ == self@.url,
    {
        self.url.clone()
    }

    /// Sets the search name to `search_name` lower-cased.
    pub fn set_search_name(&mut self, search_name: String)
        ensures
            final(self)@ == (M3uObjectView { search_name: lowercase(search_name@), ..old(self)@ }),
    {
        self.search_name = to_lower(search_name.as_str())
    }

    pub fn set_raw(&mut self, raw: String)
        ensures
            final(self)@ == (M3uObjectView { raw: raw@, ..old(self)@ }),
    {
        self.raw = raw
    }

    /// Writes the entry text from the name, url and extension (see
    /// [`raw_text`]).
    pub fn generate_raw(&mut self)
        ensures
            final(self)@ == (M3uObjectView { raw: raw_text(old(self)@), ..old(self)@ }),
    {
        let mut out = chars_of("#EXTINF:-1 ");
        match &self.extend {
            Some(e) => {
                let id = chars_of(e.tv_id.as_str());
                let quote = chars_of("\"");
                push_all(&mut out, &chars_of(" tvg-id=\""));
                push_all(&mut out, &id);
                push_all(&mut out, &quote);
                push_all(&mut out, &chars_of(" tvg-logo=\""));
                push_all(&mut out, &id);
                push_all(&mut out, &quote);
                push_all(&mut out, &chars_of(" group-title=\""));
                push_all(&mut out, &id);
                push_all(&mut out, &quote);
            },
            None => {},
        }
        push_all(&mut out, &chars_of(","));
        push_all(&mut out, &chars_of(self.name.as_str()));
        push_all(&mut out, &chars_of("\n"));
        push_all(&mut out, &chars_of(self.url.as_str()));
        assert(out@ =~= raw_text(self@));
        self.raw = string_of(out.as_slice());
    }

    pub fn set_extend(&mut self, extend: M3uExtend)
        ensures
            final(self)@ == (M3uObjectView { extend: Some(extend@), ..old(self)@ }),
    {
        self.extend = Some(extend)
    }

    pub fn set_other_status(&mut self, other_status: OtherStatus)
        ensures
            final(self)@ == (M3uObjectView { other_status: Some(other_status@), ..old(self)@ }),
    {
        self.other_status = Some(other_status)
    }

    pub fn set_status(&mut self, status: CheckDataStatus)
        ensures
            final(self)@ == (M3uObjectView { status: status, ..old(self)@ }),
    {
        self.status = status;
    }
}

// ---------------------------------------------------------------------
// Lists
// ---------------------------------------------------------------------

/// Progress of a check over a list.
#[derive(Debug, Clone, Copy, PartialEq, Eq, Structural)]
pub struct M3uObjectListCounter {
    /// How many channels have been checked.
    pub check_index: i32,
    /// How many channels there are.
    pub total: i32,
    /// How many of them answered.
    pub success_count: i32,
}

impl M3uObjectListCounter {
    pub fn new() -> (r: M3uObjectListCounter)
        ensures
            r == (M3uObjectListCounter { check_index: 0, total: 0, success_count: 0 }),
    {
        M3uObjectListCounter { check_index: 0, total: 0, success_count: 0 }
    }

    /// One more channel checked.
    pub fn now_index_incr(&mut self)
        requires
            old(self).check_index < i32::MAX,
        ensures
            *final(self) == (M3uObjectListCounter {
                check_index: (old(self).check_index + 1) as i32,
                ..*old(self)
            }),
    {
        let mut index = self.check_index;
        index += 1;
        self.check_index = index
    }

    /// One more channel answered.
    pub fn incr_succ(&mut self)
        requires
            old(self).success_count < i32::MAX,
        ensures
            *final(self) == (M3uObjectListCounter {
                success_count: (old(self).success_count + 1) as i32,
                ..*old(self)
            }),
    {
        self.success_count += 1
    }

    pub fn set_total(&mut self, total: i32)
        ensures
            *final(self) == (M3uObjectListCounter { total: total, ..*old(self) }),
    {
        self.total = total
    }
}

/// The `#EXTM3U` header of a playlist.
#[derive(Debug, Clone)]
pub struct M3uExt {
    /// The programme guide urls of `x-tvg-url`.
    pub x_tv_url: Vec<String>,
}

/// The texts of a run of strings.
pub open spec fn texts(v: Seq<String>) -> Seq<Seq<char>> {
    v.map_values(|s: String| s@)
}

impl View for M3uExt {
    type V = Seq<Seq<char>>;

    open spec fn view(&self) -> Seq<Seq<char>> {
        texts(self.x_tv_url@)
    }
}

/// The view of an optional header.
pub open spec fn opt_header(o: Option<M3uExt>) -> Option<Seq<Seq<char>>> {
    match o {
        Some(h) => Some(h@),
        None => None,
    }
}

/// A playlist: header, channels and check progress.
#[derive(Clone)]
pub struct M3uObjectList {
    pub header: Option<M3uExt>,
    pub list: Vec<M3uObject>,
    pub counter: M3uObjectListCounter,
}

pub struct M3uObjectListView {
    pub header: Option<Seq<Seq<char>>>,
    pub list: Seq<M3uObjectView>,
    pub counter: M3uObjectListCounter,
}

impl View for M3uObjectList {
    type V = M3uObjectListView;

    open spec fn view(&self) -> M3uObjectListView {
        M3uObjectListView {
            header: opt_header(self.header),
            list: objs(self.list@),
            counter: self.counter,
        }
    }
}

/// The counter of a list that has not been checked.
pub open spec fn zero_counter() -> M3uObjectListCounter {
    M3uObjectListCounter { check_index: 0, total: 0, success_count: 0 }
}

/// The text of the check summary: the number of channels that answered
/// and the number that did not.
pub open spec fn result_text(succ: int, failed: int) -> Seq<char> {
    "有效源: "@ + int_text(succ) + ", 无效源: "@ + int_text(failed)
}

impl M3uObjectList {
    /// No header, no channels, zero counter.
    pub fn new() -> (r: M3uObjectList)
        ensures
            r@ == (M3uObjectListView { header: None, list: Seq::empty(), counter: zero_counter() }),
    {
        let r = M3uObjectList {
            header: None,
            list: Vec::new(),
            counter: M3uObjectListCounter::new(),
        };
        assert(objs(r.list@) =~= Seq::<M3uObjectView>::empty());
        r
    }

    pub fn set_header(&mut self, header: M3uExt)
        ensures
            final(self)@ == (M3uObjectListView { header: Some(header@), ..old(self)@ }),
    {
        self.header = Some(header)
    }

    pub fn set_list(&mut self, list: Vec<M3uObject>)
        ensures
            final(self)@ == (M3uObjectListView { list: objs(list@), ..old(self)@ }),
    {
        self.list = list
    }

    pub fn get_list(self) -> (r: Vec<M3uObject>)
        ensures
            objs(r@) == self@.list,
    {
        self.list
    }

    pub fn get_header(self) -> (r: Option<M3uExt>)
        ensures
            opt_header(r) == self@.header,
    {
        self.header
    }

    /// The check summary: channels that answered, and the others.
    pub fn print_result(&mut self) -> (r: String)
        requires
            i32::MIN <= old(self).counter.total - old(self).counter.success_count <= i32::MAX,
        ensures
            r@ == result_text(
                old(self).counter.success_count as int,
                old(self).counter.total - old(self).counter.success_count,
            ),
            *final(self) == *old(self),
    {
        let succ_num = self.counter.success_count;
        let failed_num = self.counter.total - succ_num;
        let mut out = chars_of("有效源: ");
        push_all(&mut out, &int_chars(succ_num));
        push_all(&mut out, &chars_of(", 无效源: "));
        push_all(&mut out, &int_chars(failed_num));
        assert(out@ =~= result_text(succ_num as int, failed_num as int));
        string_of(out.as_slice())
    }

    pub fn set_counter(&mut self, counter: M3uObjectListCounter)
        ensures
            final(self)@ == (M3uObjectListView { counter: counter, ..old(self)@ }),
    {
        self.counter = counter
    }
}

} // verus!
