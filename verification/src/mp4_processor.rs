//! Takes a fragmented MP4 stream apart: boxes become a catalog and the frames of its tracks.
use crate::boxes::{check_moof, check_moov, read_be32, read_be64};
use crate::boxes;
use crate::catalog::{Catalog, CatalogTrack, CatalogTrackView, CatalogView, PackagingType};
use crate::outside::{
    buffer_slice, encode_base64, read_moof, read_moov, shared_slice, MovieTrack,
    SampleRunView, TrackFragment, TrackFragmentView,
};
use crate::outside;
use crate::table::Table;
use crate::text::decimal;
use crate::text;
use bytes::{Bytes, BytesMut};
use vstd::prelude::*;

verus! {

pub const FTYP: u32 = 0x66747970;
pub const MOOV: u32 = 0x6d6f6f76;
pub const MOOF: u32 = 0x6d6f6f66;
pub const MDAT: u32 = 0x6d646174;
pub const PRFT: u32 = 0x70726674;

/// Why a stream cannot be taken apart.
#[derive(Debug, Clone, Copy, PartialEq, Eq, Structural)]
pub enum BoxError {
    /// A box says that it has the size zero.
    EmptyBox,
    /// A box ends before what it must hold.
    ShortBox,
    /// A movie fragment cannot be read.
    BadFragment,
    /// A movie fragment holds no track fragment.
    NoTrackFragment,
}

#[derive(Debug, Clone, Copy, PartialEq, Eq, Structural)]
pub enum TrackType {
    Video,
    Audio,
    Other,
}

impl TrackType {
    pub open spec fn text(self) -> Seq<char> {
        match self {
            TrackType::Video => "video"@,
            TrackType::Audio => "audio"@,
            TrackType::Other => "other"@,
        }
    }

    /// The role of such a track.
    pub fn role(&self) -> (r: &'static str)
        ensures
            r@ == self.text(),
    {
        match self {
            TrackType::Video => "video",
            TrackType::Audio => "audio",
            TrackType::Other => "other",
        }
    }
}

/// A frame, or what stands for one, of a track.
#[derive(Debug)]
pub struct FrameData {
    pub track_id: String,
    pub data: Bytes,
    pub group_id: u64,
    pub object_id: u64,
}

/// The time of a group.
#[derive(Debug, Clone, Copy, PartialEq, Eq, Structural)]
pub struct TimeEvent {
    pub track_id: u32,
    pub ntp_timestamp: u64,
    pub media_time: u64,
    pub group_id: u64,
}

#[derive(Debug)]
pub enum MediaEvent {
    Catalog(Catalog),
    Keyframe(FrameData),
    TimeEvent(TimeEvent),
    Frame(FrameData),
}

#[verifier::ext_equal]
pub struct FrameView {
    pub track_id: Seq<char>,
    pub data: Seq<u8>,
    pub group_id: u64,
    pub object_id: u64,
}

/// What an event says.
#[verifier::ext_equal]
pub enum MediaView {
    Catalog(CatalogView),
    Keyframe(FrameView),
    TimeEvent(TimeEvent),
    Frame(FrameView),
}

impl View for FrameData {
    type V = FrameView;

    open spec fn view(&self) -> FrameView {
        FrameView {
            track_id: self.track_id@,
            data: outside::shared(self.data),
            group_id: self.group_id,
            object_id: self.object_id,
        }
    }
}

impl View for MediaEvent {
    type V = MediaView;

    open spec fn view(&self) -> MediaView {
        match self {
            MediaEvent::Catalog(c) => MediaView::Catalog(c@),
            MediaEvent::Keyframe(f) => MediaView::Keyframe(f@),
            MediaEvent::TimeEvent(t) => MediaView::TimeEvent(*t),
            MediaEvent::Frame(f) => MediaView::Frame(f@),
        }
    }
}

/// What some events say.
pub open spec fn events_view(v: Seq<MediaEvent>) -> Seq<MediaView> {
    v.map_values(|e: MediaEvent| e@)
}

/// A track of the movie.
#[derive(Debug)]
pub struct TrackInfo {
    pub track_id: u32,
    pub track_type: TrackType,
    pub codec: String,
}

#[verifier::ext_equal]
pub struct TrackInfoView {
    pub track_id: u32,
    pub track_type: TrackType,
    pub codec: Seq<char>,
}

impl View for TrackInfo {
    type V = TrackInfoView;

    open spec fn view(&self) -> TrackInfoView {
        TrackInfoView { track_id: self.track_id, track_type: self.track_type, codec: self.codec@ }
    }
}

/// What some tracks are.
pub open spec fn tracks_view(v: Seq<TrackInfo>) -> Seq<TrackInfoView> {
    v.map_values(|t: TrackInfo| t@)
}

/// The character of a digit of base sixteen.
pub open spec fn hex_digit(d: int) -> char {
    "0123456789ABCDEF"@[d]
}

/// A byte in base sixteen, without a leading zero.
pub open spec fn hex(n: u8) -> Seq<char> {
    if n < 16 {
        seq![hex_digit(n as int)]
    } else {
        seq![hex_digit((n / 16) as int), hex_digit((n % 16) as int)]
    }
}

fn append_hex(s: &mut String, n: u8)
    ensures
        final(s)@ == old(s)@ + hex(n),
{
    let digits: &str = "0123456789ABCDEF";
    proof {
        reveal_strlit("0123456789ABCDEF");
    }
    if n >= 16 {
        let d: usize = (n / 16) as usize;
        s.append(digits.substring_char(d, d + 1));
    }
    let d: usize = (n % 16) as usize;
    s.append(digits.substring_char(d, d + 1));
    proof {
        assert(digits@.subrange(d as int, d + 1) =~= seq![hex_digit(d as int)]);
        if n >= 16 {
            let e = (n / 16) as int;
            assert(digits@.subrange(e, e + 1) =~= seq![hex_digit(e)]);
        }
        assert(s@ =~= old(s)@ + hex(n));
    }
}

/// The type of a track, by its handler.
pub open spec fn type_of(handler: u32) -> TrackType {
    if handler == 0x76696465 {
        TrackType::Video
    } else if handler == 0x736f756e {
        TrackType::Audio
    } else {
        TrackType::Other
    }
}

/// The codec of a track, by the first sample description that it has.
pub open spec fn codec_of(t: MovieTrack) -> Seq<char> {
    match t.avc1 {
        Some(a) => "avc1."@ + hex(a.profile) + hex(a.compatibility) + hex(a.level),
        None => if t.hev1 {
            "hev1"@
        } else if t.vp09 {
            "vp09"@
        } else if t.mp4a {
            "mp4a.40.2"@
        } else if t.tx3g {
            "tx3g"@
        } else {
            "unknown"@
        },
    }
}

/// The codec of a track as text.
pub fn codec_text(t: &MovieTrack) -> (r: String)
    ensures
        r@ == codec_of(*t),
{
    if let Some(a) = t.avc1 {
        let mut r = "avc1.".to_owned();
        append_hex(&mut r, a.profile);
        append_hex(&mut r, a.compatibility);
        append_hex(&mut r, a.level);
        return r;
    }
    if t.hev1 {
        "hev1".to_owned()
    } else if t.vp09 {
        "vp09".to_owned()
    } else if t.mp4a {
        "mp4a.40.2".to_owned()
    } else if t.tx3g {
        "tx3g".to_owned()
    } else {
        "unknown".to_owned()
    }
}

/// Where a track of an id stands in a list; the list's length if it does not.
pub open spec fn place_of(ts: Seq<TrackInfoView>, id: u32) -> nat
    decreases ts.len(),
{
    if ts.len() == 0 || ts[0].track_id == id {
        0
    } else {
        1 + place_of(ts.skip(1), id)
    }
}

proof fn lemma_place_of(ts: Seq<TrackInfoView>, id: u32, i: int)
    requires
        0 <= i <= ts.len(),
        forall|j: int| 0 <= j < i ==> (#[trigger] ts[j]).track_id != id,
        i < ts.len() ==> ts[i].track_id == id,
    ensures
        place_of(ts, id) == i,
    decreases ts.len(),
{
    if i > 0 {
        assert(ts[0].track_id != id);
        assert forall|j: int| 0 <= j < i - 1 implies (#[trigger] ts.skip(1)[j]).track_id != id by {
            assert(ts.skip(1)[j] == ts[j + 1]);
        }
        lemma_place_of(ts.skip(1), id, i - 1);
    }
}

fn find_track(ts: &Vec<TrackInfo>, id: u32) -> (i: usize)
    ensures
        i == place_of(tracks_view(ts@), id),
        i <= ts@.len(),
        i < ts@.len() ==> ts@[i as int].track_id == id,
{
    let mut i: usize = 0;
    let ghost all = tracks_view(ts@);
    while i < ts.len() && ts[i].track_id != id
        invariant
            all == tracks_view(ts@),
            i <= ts@.len(),
            forall|j: int| 0 <= j < i ==> (#[trigger] all[j]).track_id != id,
        decreases ts@.len() - i,
    {
        assert(all[i as int] == ts@[i as int]@);
        i = i + 1;
    }
    proof {
        if i < ts@.len() {
            assert(all[i as int] == ts@[i as int]@);
        }
        lemma_place_of(all, id, i as int);
    }
    i
}

/// The tracks of a movie in the order in which their ids first come; of two with one id the later
/// counts.
pub open spec fn track_map_of(ms: Seq<MovieTrack>) -> Seq<TrackInfoView>
    decreases ms.len(),
{
    if ms.len() == 0 {
        Seq::empty()
    } else {
        let before = track_map_of(ms.drop_last());
        let m = ms.last();
        let t = TrackInfoView {
            track_id: m.track_id,
            track_type: type_of(m.handler),
            codec: codec_of(m),
        };
        let i = place_of(before, m.track_id);
        if i < before.len() {
            before.update(i as int, t)
        } else {
            before.push(t)
        }
    }
}

/// Lists the tracks of a movie that was read.
pub fn build_track_map(ms: &Vec<MovieTrack>) -> (ts: Vec<TrackInfo>)
    ensures
        tracks_view(ts@) == track_map_of(ms@),
{
    let mut ts: Vec<TrackInfo> = Vec::new();
    let mut i: usize = 0;
    assert(ms@.take(0) =~= Seq::<MovieTrack>::empty());
    assert(tracks_view(ts@) =~= track_map_of(ms@.take(0)));
    while i < ms.len()
        invariant
            i <= ms@.len(),
            tracks_view(ts@) == track_map_of(ms@.take(i as int)),
        decreases ms@.len() - i,
    {
        let ghost before = tracks_view(ts@);
        proof {
            assert(ms@.take(i + 1).drop_last() =~= ms@.take(i as int));
            assert(ms@.take(i + 1).last() == ms@[i as int]);
        }
        let m = ms[i];
        let track_type = if m.handler == 0x76696465 {
            TrackType::Video
        } else if m.handler == 0x736f756e {
            TrackType::Audio
        } else {
            TrackType::Other
        };
        let t = TrackInfo { track_id: m.track_id, track_type, codec: codec_text(&m) };
        let at: usize = find_track(&ts, m.track_id);
        if at < ts.len() {
            ts.set(at, t);
            assert(tracks_view(ts@) =~= before.update(at as int, t@));
        } else {
            ts.push(t);
            assert(tracks_view(ts@) =~= before.push(t@));
        }
        i = i + 1;
    }
    assert(ms@.take(i as int) =~= ms@);
    ts
}

/// What is known of a movie box: its tracks, if it can be read.
pub open spec fn moov_known(data: Seq<u8>) -> Option<Seq<TrackInfoView>> {
    if boxes::moov_ok(data) {
        match outside::moov_tracks(data) {
            Some(ms) => Some(track_map_of(ms)),
            None => None,
        }
    } else {
        None
    }
}

/// What is known of a movie fragment: its track fragments, if it can be read.
pub open spec fn moof_known(data: Seq<u8>) -> Option<Seq<TrackFragmentView>> {
    if boxes::moof_ok(data) {
        outside::moof_fragments(data)
    } else {
        None
    }
}

/// The flags of sample `j` of a run.
pub open spec fn flags_of(r: SampleRunView, j: int, default_flags: u32) -> u32 {
    if j == 0 && r.first_sample_flags is Some {
        r.first_sample_flags->Some_0
    } else if j < r.sample_flags.len() {
        r.sample_flags[j]
    } else {
        default_flags
    }
}

/// Whether flags are those of a key frame: a sample that depends on no other, and is a sync sample.
pub open spec fn is_key(flags: u32) -> bool {
    (flags >> 24u32) & 0x3 == 0x2 && flags & 0x10000 != 0x10000
}

/// Whether a run holds a key frame.
pub open spec fn run_has_key(r: SampleRunView, default_flags: u32) -> bool {
    exists|j: int| 0 <= j < r.sample_count && #[trigger] is_key(flags_of(r, j, default_flags))
}

/// Whether some track fragments hold a key frame. They are looked through up to the first that has
/// no run.
pub open spec fn has_key(fs: Seq<TrackFragmentView>) -> bool
    decreases fs.len(),
{
    if fs.len() == 0 {
        false
    } else {
        match fs[0].run {
            None => false,
            Some(r) => run_has_key(
                r,
                match fs[0].default_sample_flags {
                    Some(f) => f,
                    None => 0,
                },
            ) || has_key(fs.skip(1)),
        }
    }
}

/// Looks for a key frame in track fragments that were read.
pub fn find_keyframe(fs: &Vec<TrackFragment>) -> (b: bool)
    ensures
        b == has_key(outside::fragments_view(fs@)),
{
    let ghost all = outside::fragments_view(fs@);
    let mut i: usize = 0;
    assert(all.skip(0) =~= all);
    while i < fs.len()
        invariant
            all == outside::fragments_view(fs@),
            i <= fs@.len(),
            has_key(all) == has_key(all.skip(i as int)),
        decreases fs@.len() - i,
    {
        proof {
            assert(all.skip(i as int)[0] == fs@[i as int]@);
            assert(all.skip(i as int).skip(1) =~= all.skip(i + 1));
        }
        let default_flags: u32 = match fs[i].default_sample_flags {
            Some(f) => f,
            None => 0,
        };
        match &fs[i].run {
            None => {
                return false;
            },
            Some(r) => {
                let ghost run = fs@[i as int]@.run->Some_0;
                let mut j: u32 = 0;
                while j < r.sample_count
                    invariant
                        j <= r.sample_count,
                        run.sample_count == r.sample_count,
                        run.first_sample_flags == r.first_sample_flags,
                        run.sample_flags == r.sample_flags@,
                        has_key(all) == (run_has_key(run, default_flags) || has_key(
                            all.skip(i + 1),
                        )),
                        forall|k: int|
                            0 <= k < j ==> !#[trigger] is_key(flags_of(run, k, default_flags)),
                        all == outside::fragments_view(fs@),
                        i < fs@.len(),
                    decreases r.sample_count - j,
                {
                    let flags: u32 = if j == 0 && r.first_sample_flags.is_some() {
                        r.first_sample_flags.unwrap()
                    } else if (j as usize) < r.sample_flags.len() {
                        r.sample_flags[j as usize]
                    } else {
                        default_flags
                    };
                    assert(flags == flags_of(run, j as int, default_flags));
                    if (flags >> 24u32) & 0x3 == 0x2 && flags & 0x10000 != 0x10000 {
                        assert(is_key(flags_of(run, j as int, default_flags)));
                        return true;
                    }
                    j = j + 1;
                }
                assert(!run_has_key(run, default_flags));
            },
        }
        i = i + 1;
    }
    false
}

/// The entry of the catalog for a track of the movie.
pub open spec fn catalog_entry(t: TrackInfoView, init: Seq<u8>) -> CatalogTrackView {
    CatalogTrackView {
        track_name: text::dec(t.track_id as nat),
        render_group: 1,
        packaging: PackagingType::ChunkPerObject,
        is_live: true,
        role: t.track_type.text(),
        codec: t.codec,
        width: 0,
        height: 0,
        bitrate: 0,
        framerate: 0,
        alt_group: 1,
        init_data: Some(outside::base64_of(init)),
        mime_type: None,
        depends: None,
    }
}

/// The entry of the catalog for the timeline, which goes with all tracks of the movie.
pub open spec fn timeline_entry(ts: Seq<TrackInfoView>) -> CatalogTrackView {
    CatalogTrackView {
        track_name: "timeline"@,
        render_group: 1,
        packaging: PackagingType::Timeline,
        is_live: true,
        role: "timeline"@,
        codec: ""@,
        width: 0,
        height: 0,
        bitrate: 0,
        framerate: 0,
        alt_group: 1,
        init_data: None,
        mime_type: Some("text/csv"@),
        depends: Some(ts.map_values(|t: TrackInfoView| text::dec(t.track_id as nat))),
    }
}

/// The catalog of a movie.
pub open spec fn catalog_of(ts: Seq<TrackInfoView>, init: Seq<u8>, now: u64) -> CatalogView {
    CatalogView {
        version: 1,
        generated_at: now,
        tracks: ts.map_values(|t: TrackInfoView| catalog_entry(t, init)).push(timeline_entry(ts)),
    }
}

/// Makes the catalog of a movie, with its initialization segment.
pub fn build_catalog(ts: &Vec<TrackInfo>, init: &[u8], now: u64) -> (c: Catalog)
    requires
        init@.len() <= isize::MAX / 2,
    ensures
        c@ == catalog_of(tracks_view(ts@), init@, now),
{
    let ghost all = tracks_view(ts@);
    let mut tracks: Vec<CatalogTrack> = Vec::new();
    let mut depends: Vec<String> = Vec::new();
    let mut i: usize = 0;
    while i < ts.len()
        invariant
            init@.len() <= isize::MAX / 2,
            all == tracks_view(ts@),
            i <= ts@.len(),
            tracks@.len() == i,
            depends@.len() == i,
            forall|j: int| 0 <= j < i ==> (#[trigger] tracks@[j])@ == catalog_entry(all[j], init@),
            forall|j: int|
                0 <= j < i ==> (#[trigger] depends@[j])@ == text::dec(all[j].track_id as nat),
        decreases ts@.len() - i,
    {
        assert(all[i as int] == ts@[i as int]@);
        let t = CatalogTrack::new(
            decimal(ts[i].track_id as u128),
            1,
            PackagingType::ChunkPerObject,
            true,
            ts[i].track_type.role().to_owned(),
            ts[i].codec.clone(),
            0,
            0,
            0,
            0,
            1,
            Some(encode_base64(init)),
            None,
            None,
        );
        assert(t@ =~= catalog_entry(all[i as int], init@));
        tracks.push(t);
        depends.push(decimal(ts[i].track_id as u128));
        i = i + 1;
    }
    assert(text::texts(depends@) =~= all.map_values(
        |t: TrackInfoView| text::dec(t.track_id as nat),
    ));
    let timeline = CatalogTrack::new(
        "timeline".to_owned(),
        1,
        PackagingType::Timeline,
        true,
        "timeline".to_owned(),
        "".to_owned(),
        0,
        0,
        0,
        0,
        1,
        None,
        Some("text/csv".to_owned()),
        Some(depends),
    );
    assert(timeline@ =~= timeline_entry(all));
    tracks.push(timeline);
    let c = Catalog::new(tracks, now);
    assert(c@.tracks =~= catalog_of(all, init@, now).tracks);
    c
}

#[derive(Debug, Clone, Copy, PartialEq, Eq, Structural)]
pub enum ProcessorState {
    ReadingBoxHeader,
    ReadingBoxData { box_type: u32, box_size: u64 },
}

pub struct Mp4StreamProcessor {
    pub buffer: BytesMut,
    pub state: ProcessorState,
    pub init_segment: BytesMut,
    pub last_moof: BytesMut,
    pub moov_processed: bool,
    pub ftyp_processed: bool,
    pub frame_count: u64,
    pub is_keyframe: bool,
    pub tracks: Vec<TrackInfo>,
    pub last_track_id: u32,
    pub last_track_type: TrackType,
    pub last_ntp_timestamp: u64,
    pub last_media_time: u64,
    pub keyframe_count: u64,
    pub last_group_frame_count: u64,
    pub last_prft_box: Bytes,
    pub track_object_counters: Table<u32, u64>,
    /// How many boxes have been taken out of the stream.
    pub boxes_seen: u64,
}

/// What a processor holds.
#[verifier::ext_equal]
pub struct ProcessorView {
    pub buffer: Seq<u8>,
    pub state: ProcessorState,
    pub init_segment: Seq<u8>,
    pub last_moof: Seq<u8>,
    pub moov_processed: bool,
    pub ftyp_processed: bool,
    pub frame_count: u64,
    pub is_keyframe: bool,
    pub tracks: Seq<TrackInfoView>,
    pub last_track_id: u32,
    pub last_track_type: TrackType,
    pub last_ntp_timestamp: u64,
    pub last_media_time: u64,
    pub keyframe_count: u64,
    pub last_group_frame_count: u64,
    pub last_prft_box: Seq<u8>,
    pub counters: Map<u32, u64>,
    pub boxes_seen: u64,
}

impl View for Mp4StreamProcessor {
    type V = ProcessorView;

    open spec fn view(&self) -> ProcessorView {
        ProcessorView {
            buffer: outside::buffered(self.buffer),
            state: self.state,
            init_segment: outside::buffered(self.init_segment),
            last_moof: outside::buffered(self.last_moof),
            moov_processed: self.moov_processed,
            ftyp_processed: self.ftyp_processed,
            frame_count: self.frame_count,
            is_keyframe: self.is_keyframe,
            tracks: tracks_view(self.tracks@),
            last_track_id: self.last_track_id,
            last_track_type: self.last_track_type,
            last_ntp_timestamp: self.last_ntp_timestamp,
            last_media_time: self.last_media_time,
            keyframe_count: self.keyframe_count,
            last_group_frame_count: self.last_group_frame_count,
            last_prft_box: outside::shared(self.last_prft_box),
            counters: self.track_object_counters@,
            boxes_seen: self.boxes_seen,
        }
    }
}

impl ProcessorView {
    /// All bytes that are kept.
    pub open spec fn kept(self) -> nat {
        self.buffer.len() + self.init_segment.len() + self.last_moof.len()
            + self.last_prft_box.len()
    }

    /// Nothing has been counted more often than boxes have come.
    pub open spec fn counts_ok(self) -> bool {
        &&& self.frame_count <= self.boxes_seen
        &&& self.keyframe_count <= self.boxes_seen
        &&& self.last_group_frame_count <= self.boxes_seen
        &&& forall|k: u32| #[trigger]
            self.counters.contains_key(k) ==> self.counters[k] <= self.boxes_seen
    }
}

/// The size of the box at the start of a buffer, and its type, once its header has come. A size of
/// one says that a longer one follows the type.
pub open spec fn first_box(b: Seq<u8>) -> Option<(u32, u64)> {
    if b.len() < 8 {
        None
    } else if boxes::be32(b, 0) != 1 {
        Some((boxes::be32(b, 4), boxes::be32(b, 0) as u64))
    } else if b.len() < 16 {
        None
    } else {
        Some((boxes::be32(b, 4), boxes::be64(b, 8)))
    }
}

/// What handling a box makes of a processor.
#[verifier::ext_equal]
pub struct BoxStep {
    pub after: ProcessorView,
    pub events: Seq<MediaView>,
    pub error: Option<BoxError>,
}

pub open spec fn no_events(after: ProcessorView) -> BoxStep {
    BoxStep { after, events: Seq::empty(), error: None }
}

pub open spec fn refused(v: ProcessorView, e: BoxError) -> BoxStep {
    BoxStep { after: v, events: Seq::empty(), error: Some(e) }
}

/// The file type starts the initialization segment. Only the first one counts.
pub open spec fn ftyp_step(v: ProcessorView, data: Seq<u8>) -> BoxStep {
    if v.ftyp_processed {
        no_events(v)
    } else {
        no_events(
            ProcessorView { init_segment: v.init_segment + data, ftyp_processed: true, ..v },
        )
    }
}

/// The movie completes the initialization segment and gives the catalog. Only the first one
/// counts; of one that cannot be read no track is known.
pub open spec fn moov_step(v: ProcessorView, data: Seq<u8>, now: u64) -> BoxStep {
    if v.moov_processed {
        no_events(v)
    } else if data.len() < 8 {
        refused(v, BoxError::ShortBox)
    } else {
        let tracks = match moov_known(data) {
            Some(ts) => ts,
            None => v.tracks,
        };
        let init = v.init_segment + data;
        BoxStep {
            after: ProcessorView { init_segment: init, tracks, moov_processed: true, ..v },
            events: seq![MediaView::Catalog(catalog_of(tracks, init, now))],
            error: None,
        }
    }
}

/// The reference time of what follows.
pub open spec fn prft_step(v: ProcessorView, data: Seq<u8>) -> BoxStep {
    if data.len() < 28 || (data[8] != 0 && data.len() < 32) {
        refused(v, BoxError::ShortBox)
    } else {
        no_events(
            ProcessorView {
                last_ntp_timestamp: boxes::be64(data, 16),
                last_media_time: if data[8] == 0 {
                    boxes::be32(data, 24) as u64
                } else {
                    boxes::be64(data, 24)
                },
                last_prft_box: data,
                ..v
            },
        )
    }
}

/// The type of a track, if it is known.
pub open spec fn known_type(ts: Seq<TrackInfoView>, id: u32) -> TrackType {
    let i = place_of(ts, id);
    if i < ts.len() {
        ts[i as int].track_type
    } else {
        TrackType::Other
    }
}

/// Whether a movie fragment holds a key frame. Where it cannot be read, every 25th frame is taken
/// for one.
pub open spec fn keyframe_in(data: Seq<u8>, frame_count: u64) -> bool {
    match moof_known(data) {
        Some(fs) => has_key(fs),
        None => frame_count % 25 == 0,
    }
}

/// The track that a movie fragment belongs to.
pub open spec fn fragment_track(data: Seq<u8>) -> Result<u32, BoxError> {
    match moof_known(data) {
        None => Err(BoxError::BadFragment),
        Some(fs) => if fs.len() == 0 {
            Err(BoxError::NoTrackFragment)
        } else {
            Ok(fs[0].track_id)
        },
    }
}

/// A movie fragment. One of a video track that holds a key frame starts a new group, in which
/// objects are counted anew.
pub open spec fn moof_step(v: ProcessorView, data: Seq<u8>) -> BoxStep {
    if data.len() < 8 {
        refused(v, BoxError::ShortBox)
    } else {
        match fragment_track(data) {
            Err(e) => refused(v, e),
            Ok(id) => {
                let track_type = known_type(v.tracks, id);
                let key = keyframe_in(data, v.frame_count) && track_type is Video;
                let next = ProcessorView {
                    last_track_id: id,
                    last_track_type: track_type,
                    is_keyframe: key,
                    last_moof: data,
                    ..v
                };
                if key {
                    let group_id = (v.keyframe_count + 1) as u64;
                    BoxStep {
                        after: ProcessorView {
                            keyframe_count: group_id,
                            last_group_frame_count: 1,
                            counters: Map::empty(),
                            ..next
                        },
                        events: seq![
                            MediaView::Keyframe(
                                FrameView {
                                    track_id: text::dec(id as nat),
                                    data: v.last_moof,
                                    group_id,
                                    object_id: 1,
                                },
                            ),
                            MediaView::TimeEvent(
                                TimeEvent {
                                    track_id: id,
                                    ntp_timestamp: v.last_ntp_timestamp,
                                    media_time: v.last_media_time,
                                    group_id,
                                },
                            ),
                        ],
                        error: None,
                    }
                } else {
                    no_events(
                        ProcessorView {
                            last_group_frame_count: (v.last_group_frame_count + 1) as u64,
                            ..next
                        },
                    )
                }
            },
        }
    }
}

/// The next object id of a track.
pub open spec fn next_object(v: ProcessorView) -> u64 {
    if v.counters.contains_key(v.last_track_id) {
        (v.counters[v.last_track_id] + 1) as u64
    } else {
        1
    }
}

/// Media data completes a frame: reference time, movie fragment and media data together.
pub open spec fn mdat_step(v: ProcessorView, data: Seq<u8>) -> BoxStep {
    let object_id = next_object(v);
    BoxStep {
        after: ProcessorView {
            counters: v.counters.insert(v.last_track_id, object_id),
            is_keyframe: false,
            frame_count: (v.frame_count + 1) as u64,
            ..v
        },
        events: seq![
            MediaView::Frame(
                FrameView {
                    track_id: text::dec(v.last_track_id as nat),
                    data: v.last_prft_box + v.last_moof + data,
                    group_id: v.keyframe_count,
                    object_id,
                },
            ),
        ],
        error: None,
    }
}

/// What handling a box makes of a processor; a box of another type is passed over.
#[verifier::opaque]
pub open spec fn box_step(v: ProcessorView, box_type: u32, data: Seq<u8>, now: u64) -> BoxStep {
    let seen = ProcessorView { boxes_seen: (v.boxes_seen + 1) as u64, ..v };
    if box_type == FTYP {
        ftyp_step(seen, data)
    } else if box_type == MOOV {
        moov_step(seen, data, now)
    } else if box_type == MOOF {
        moof_step(seen, data)
    } else if box_type == MDAT {
        mdat_step(seen, data)
    } else if box_type == PRFT {
        prft_step(seen, data)
    } else {
        no_events(seen)
    }
}

impl Mp4StreamProcessor {
    pub open spec fn wf(&self) -> bool {
        &&& self.track_object_counters.wf()
        &&& self@.counts_ok()
        &&& self@.kept() <= isize::MAX / 2
    }

    pub fn new() -> (p: Self)
        ensures
            p.wf(),
            p@ == (ProcessorView {
                buffer: Seq::empty(),
                state: ProcessorState::ReadingBoxHeader,
                init_segment: Seq::empty(),
                last_moof: Seq::empty(),
                moov_processed: false,
                ftyp_processed: false,
                frame_count: 0,
                is_keyframe: false,
                tracks: Seq::empty(),
                last_track_id: 0,
                last_track_type: TrackType::Other,
                last_ntp_timestamp: 0,
                last_media_time: 0,
                keyframe_count: 0,
                last_group_frame_count: 0,
                last_prft_box: Seq::empty(),
                counters: Map::empty(),
                boxes_seen: 0,
            }),
    {
        let p = Mp4StreamProcessor {
            buffer: BytesMut::new(),
            state: ProcessorState::ReadingBoxHeader,
            init_segment: BytesMut::new(),
            last_moof: BytesMut::new(),
            moov_processed: false,
            ftyp_processed: false,
            frame_count: 0,
            is_keyframe: false,
            tracks: Vec::new(),
            last_track_id: 0,
            last_track_type: TrackType::Other,
            last_ntp_timestamp: 0,
            last_media_time: 0,
            keyframe_count: 0,
            last_group_frame_count: 0,
            last_prft_box: Bytes::new(),
            track_object_counters: Table::new(),
            boxes_seen: 0,
        };
        assert(p@.tracks =~= Seq::<TrackInfoView>::empty());
        p
    }

    /// The track that a movie fragment belongs to: that of its first track fragment.
    pub fn get_track_id_from_moof(data: &[u8]) -> (r: Result<u32, BoxError>)
        requires
            data@.len() >= 8,
        ensures
            r == fragment_track(data@),
    {
        match Mp4StreamProcessor::read_fragments(data) {
            None => Err(BoxError::BadFragment),
            Some(fs) => {
                proof {
                    let v = outside::fragments_view(fs@);
                    assert(v.len() == fs@.len());
                    if fs@.len() > 0 {
                        assert(v[0] == fs@[0]@);
                    }
                }
                if fs.len() == 0 {
                    Err(BoxError::NoTrackFragment)
                } else {
                    Ok(fs[0].track_id)
                }
            },
        }
    }

    fn read_fragments(data: &[u8]) -> (r: Option<Vec<TrackFragment>>)
        requires
            data@.len() >= 8,
        ensures
            match r {
                Some(fs) => moof_known(data@) == Some(outside::fragments_view(fs@)),
                None => moof_known(data@) is None,
            },
    {
        if check_moof(data) {
            read_moof(data)
        } else {
            None
        }
    }

    /// Whether a movie fragment holds a key frame.
    pub fn parse_moof_for_keyframe(&self, data: &[u8]) -> (b: bool)
        requires
            data@.len() >= 8,
        ensures
            b == keyframe_in(data@, self.frame_count),
    {
        match Mp4StreamProcessor::read_fragments(data) {
            Some(fs) => find_keyframe(&fs),
            None => self.frame_count % 25 == 0,
        }
    }

    /// The tracks of a movie box, if it can be read.
    pub fn build_track_map_from_moov(data: &[u8]) -> (r: Option<Vec<TrackInfo>>)
        requires
            data@.len() >= 8,
        ensures
            match r {
                Some(ts) => moov_known(data@) == Some(tracks_view(ts@)),
                None => moov_known(data@) is None,
            },
    {
        if !check_moov(data) {
            return None;
        }
        match read_moov(data) {
            Some(ms) => Some(build_track_map(&ms)),
            None => None,
        }
    }

    /// The type of a track: one that is not known is another type.
    pub fn get_track_type(&self, track_id: u32) -> (t: TrackType)
        ensures
            t == known_type(self@.tracks, track_id),
    {
        let i: usize = find_track(&self.tracks, track_id);
        if i < self.tracks.len() {
            assert(self@.tracks[i as int] == self.tracks@[i as int]@);
            self.tracks[i].track_type
        } else {
            TrackType::Other
        }
    }
}

impl Mp4StreamProcessor {
    /// What handling a box needs: its bytes can be kept beside those that are, and the box can be
    /// counted.
    pub open spec fn takes(&self, size: nat) -> bool {
        &&& self.track_object_counters.wf()
        &&& self@.counts_ok()
        &&& self@.kept() + size <= isize::MAX / 2
    }

    fn process_ftyp_box(&mut self, data: BytesMut)
        requires
            old(self).takes(outside::buffered(data).len()),
        ensures
            final(self).wf(),
            final(self)@ == ftyp_step(old(self)@, outside::buffered(data)).after,
    {
        if !self.ftyp_processed {
            self.init_segment.extend_from_slice(buffer_slice(&data));
            self.ftyp_processed = true;
        }
        assert(self@ =~= ftyp_step(old(self)@, outside::buffered(data)).after);
    }

    fn process_moov_box(&mut self, data: BytesMut, now: u64) -> (r: Result<
        Vec<MediaEvent>,
        BoxError,
    >)
        requires
            old(self).takes(outside::buffered(data).len()),
        ensures
            final(self).wf(),
            ({
                let step = moov_step(old(self)@, outside::buffered(data), now);
                &&& final(self)@ == step.after
                &&& match r {
                    Ok(es) => step.error is None && events_view(es@) == step.events,
                    Err(e) => step.error == Some(e),
                }
            }),
    {
        let mut es: Vec<MediaEvent> = Vec::new();
        if self.moov_processed {
            assert(events_view(es@) =~= Seq::<MediaView>::empty());
            return Ok(es);
        }
        let bytes = buffer_slice(&data);
        if bytes.len() < 8 {
            return Err(BoxError::ShortBox);
        }
        self.init_segment.extend_from_slice(bytes);
        if let Some(ts) = Mp4StreamProcessor::build_track_map_from_moov(bytes) {
            self.tracks = ts;
        }
        let catalog = build_catalog(&self.tracks, buffer_slice(&self.init_segment), now);
        es.push(MediaEvent::Catalog(catalog));
        self.moov_processed = true;
        proof {
            let step = moov_step(old(self)@, outside::buffered(data), now);
            assert(events_view(es@) =~= step.events);
            assert(self@ =~= step.after);
        }
        Ok(es)
    }

    fn process_prft_box(&mut self, data: BytesMut) -> (r: Result<(), BoxError>)
        requires
            old(self).takes(outside::buffered(data).len()),
        ensures
            final(self).wf(),
            ({
                let step = prft_step(old(self)@, outside::buffered(data));
                &&& final(self)@ == step.after
                &&& match r {
                    Ok(_) => step.error is None,
                    Err(e) => step.error == Some(e),
                }
            }),
    {
        let bytes = buffer_slice(&data);
        let n: usize = bytes.len();
        if n < 28 {
            return Err(BoxError::ShortBox);
        }
        let short = bytes[8] == 0;
        if !short && n < 32 {
            return Err(BoxError::ShortBox);
        }
        self.last_ntp_timestamp = read_be64(bytes, 16);
        self.last_media_time = if short {
            read_be32(bytes, 24) as u64
        } else {
            read_be64(bytes, 24)
        };
        self.last_prft_box = data.freeze();
        Ok(())
    }

    fn process_moof_box(&mut self, data: BytesMut) -> (r: Result<Vec<MediaEvent>, BoxError>)
        requires
            old(self).takes(outside::buffered(data).len()),
            old(self).keyframe_count < old(self).boxes_seen,
            old(self).last_group_frame_count < old(self).boxes_seen,
        ensures
            final(self).wf(),
            ({
                let step = moof_step(old(self)@, outside::buffered(data));
                &&& final(self)@ == step.after
                &&& match r {
                    Ok(es) => step.error is None && events_view(es@) == step.events,
                    Err(e) => step.error == Some(e),
                }
            }),
    {
        let ghost moof = outside::buffered(data);
        let ghost step = moof_step(old(self)@, moof);
        let bytes = buffer_slice(&data);
        if bytes.len() < 8 {
            return Err(BoxError::ShortBox);
        }
        let id: u32 = match Mp4StreamProcessor::get_track_id_from_moof(bytes) {
            Ok(id) => id,
            Err(e) => {
                return Err(e);
            },
        };
        let track_type = self.get_track_type(id);
        let key = self.parse_moof_for_keyframe(bytes) && track_type == TrackType::Video;
        self.last_track_id = id;
        self.last_track_type = track_type;
        self.is_keyframe = key;
        let mut earlier = data;
        std::mem::swap(&mut self.last_moof, &mut earlier);
        let mut es: Vec<MediaEvent> = Vec::new();
        if key {
            self.keyframe_count = self.keyframe_count + 1;
            self.last_group_frame_count = 1;
            self.track_object_counters.clear();
            let frame = FrameData {
                track_id: decimal(id as u128),
                data: earlier.freeze(),
                group_id: self.keyframe_count,
                object_id: 1,
            };
            let time = TimeEvent {
                track_id: id,
                ntp_timestamp: self.last_ntp_timestamp,
                media_time: self.last_media_time,
                group_id: self.keyframe_count,
            };
            es.push(MediaEvent::Keyframe(frame));
            es.push(MediaEvent::TimeEvent(time));
        } else {
            self.last_group_frame_count = self.last_group_frame_count + 1;
        }
        proof {
            assert(events_view(es@) =~= step.events);
            assert(self@ =~= step.after);
        }
        Ok(es)
    }

    fn process_mdat_box(&mut self, data: BytesMut) -> (es: Vec<MediaEvent>)
        requires
            old(self).takes(outside::buffered(data).len()),
            old(self).frame_count < old(self).boxes_seen,
            forall|k: u32| #[trigger]
                old(self)@.counters.contains_key(k) ==> old(self)@.counters[k]
                    < old(self).boxes_seen,
        ensures
            final(self).wf(),
            final(self)@ == mdat_step(old(self)@, outside::buffered(data)).after,
            events_view(es@) == mdat_step(old(self)@, outside::buffered(data)).events,
    {
        let ghost mdat = outside::buffered(data);
        let object_id: u64 = match self.track_object_counters.get(&self.last_track_id) {
            Some(n) => *n + 1,
            None => 1,
        };
        self.track_object_counters.insert(self.last_track_id, object_id);
        let mut payload = BytesMut::new();
        payload.extend_from_slice(shared_slice(&self.last_prft_box));
        payload.extend_from_slice(buffer_slice(&self.last_moof));
        payload.extend_from_slice(buffer_slice(&data));
        self.is_keyframe = false;
        self.frame_count = self.frame_count + 1;
        let frame = FrameData {
            track_id: decimal(self.last_track_id as u128),
            data: payload.freeze(),
            group_id: self.keyframe_count,
            object_id,
        };
        let mut es: Vec<MediaEvent> = Vec::new();
        es.push(MediaEvent::Frame(frame));
        proof {
            let step = mdat_step(old(self)@, mdat);
            assert(frame@.data =~= old(self)@.last_prft_box + old(self)@.last_moof + mdat);
            assert(events_view(es@) =~= step.events);
            assert(self@ =~= step.after);
        }
        es
    }

    /// Handles a whole box.
    pub fn process_box(&mut self, box_type: u32, data: BytesMut, now: u64) -> (r: Result<
        Vec<MediaEvent>,
        BoxError,
    >)
        requires
            old(self).takes(outside::buffered(data).len()),
            old(self).boxes_seen < u64::MAX,
        ensures
            final(self).wf(),
            ({
                let step = box_step(old(self)@, box_type, outside::buffered(data), now);
                &&& final(self)@ == step.after
                &&& match r {
                    Ok(es) => step.error is None && events_view(es@) == step.events,
                    Err(e) => step.error == Some(e),
                }
            }),
    {
        proof {
            reveal(box_step);
        }
        self.boxes_seen = self.boxes_seen + 1;
        let none: Vec<MediaEvent> = Vec::new();
        assert(events_view(none@) =~= Seq::<MediaView>::empty());
        if box_type == FTYP {
            self.process_ftyp_box(data);
            Ok(none)
        } else if box_type == MOOV {
            self.process_moov_box(data, now)
        } else if box_type == MOOF {
            self.process_moof_box(data)
        } else if box_type == MDAT {
            Ok(self.process_mdat_box(data))
        } else if box_type == PRFT {
            match self.process_prft_box(data) {
                Ok(_) => Ok(none),
                Err(e) => Err(e),
            }
        } else {
            Ok(none)
        }
    }
}

/// What is left of a step when one more box was handled before it.
pub open spec fn behind(events: Seq<MediaView>, rest: BoxStep) -> BoxStep {
    BoxStep { events: events + rest.events, ..rest }
}

/// What becomes of a buffer: as long as it holds a whole box, the box is handled. A box that says
/// that it is empty ends the stream, and so does one that cannot be handled.
pub open spec fn drained(v: ProcessorView, now: u64) -> BoxStep
    decreases
            v.buffer.len(),
            if v.state is ReadingBoxHeader {
                1nat
            } else {
                0nat
            },
{
    match v.state {
        ProcessorState::ReadingBoxHeader => match first_box(v.buffer) {
            None => no_events(v),
            Some((box_type, box_size)) => drained(
                ProcessorView {
                    state: ProcessorState::ReadingBoxData { box_type, box_size },
                    ..v
                },
                now,
            ),
        },
        ProcessorState::ReadingBoxData { box_type, box_size } => {
            if v.buffer.len() < box_size {
                no_events(v)
            } else if box_size == 0 {
                refused(v, BoxError::EmptyBox)
            } else {
                let data = v.buffer.take(box_size as int);
                let step = box_step(
                    ProcessorView { buffer: v.buffer.skip(box_size as int), ..v },
                    box_type,
                    data,
                    now,
                );
                if step.error is Some {
                    step
                } else if step.after.buffer.len() < v.buffer.len() {
                    behind(
                        step.events,
                        drained(
                            ProcessorView { state: ProcessorState::ReadingBoxHeader, ..step.after },
                            now,
                        ),
                    )
                } else {
                    step
                }
            }
        },
    }
}

impl Mp4StreamProcessor {
    /// Reads the header of the next box, if it has come.
    fn read_box_header(&mut self) -> (more: bool)
        requires
            old(self).wf(),
            old(self).state is ReadingBoxHeader,
        ensures
            final(self).wf(),
            match first_box(old(self)@.buffer) {
                Some((box_type, box_size)) => more && final(self)@ == (ProcessorView {
                    state: ProcessorState::ReadingBoxData { box_type, box_size },
                    ..old(self)@
                }),
                None => !more && final(self)@ == old(self)@,
            },
    {
        let bytes = buffer_slice(&self.buffer);
        let n: usize = bytes.len();
        if n < 8 {
            return false;
        }
        let size: u32 = read_be32(bytes, 0);
        let box_type: u32 = read_be32(bytes, 4);
        let box_size: u64 = if size == 1 {
            if n < 16 {
                return false;
            }
            read_be64(bytes, 8)
        } else {
            size as u64
        };
        self.state = ProcessorState::ReadingBoxData { box_type, box_size };
        assert(self@ =~= (ProcessorView { state: self.state, ..old(self)@ }));
        true
    }

    /// Handles the boxes that the buffer holds as a whole.
    fn process_buffer(&mut self, now: u64) -> (r: (Vec<MediaEvent>, Option<BoxError>))
        requires
            old(self).wf(),
            old(self).boxes_seen + old(self)@.buffer.len() < u64::MAX,
        ensures
            final(self).wf(),
            ({
                let step = drained(old(self)@, now);
                &&& final(self)@ == step.after
                &&& events_view(r.0@) == step.events
                &&& r.1 == step.error
            }),
    {
        let mut es: Vec<MediaEvent> = Vec::new();
        proof {
            assert(events_view(es@) =~= Seq::<MediaView>::empty());
            let d = drained(self@, now);
            assert(behind(events_view(es@), d) =~= d);
        }
        loop
            invariant
                self.wf(),
                self.boxes_seen + self@.buffer.len() < u64::MAX,
                drained(old(self)@, now) == behind(events_view(es@), drained(self@, now)),
            decreases
                self@.buffer.len(),
                if self.state is ReadingBoxHeader {
                    1nat
                } else {
                    0nat
                },
        {
            let ghost before = self@;
            let ghost had = events_view(es@);
            match self.state {
                ProcessorState::ReadingBoxHeader => {
                    if !self.read_box_header() {
                        assert(had =~= had + Seq::<MediaView>::empty());
                        return (es, None);
                    }
                },
                ProcessorState::ReadingBoxData { box_type, box_size } => {
                    let n: usize = buffer_slice(&self.buffer).len();
                    if (n as u64) < box_size {
                        assert(had =~= had + Seq::<MediaView>::empty());
                        return (es, None);
                    }
                    if box_size == 0 {
                        assert(had =~= had + Seq::<MediaView>::empty());
                        return (es, Some(BoxError::EmptyBox));
                    }
                    match self.take_box(box_type, box_size, now) {
                        Ok(more) => {
                            let mut more = more;
                            let ghost added = events_view(more@);
                            es.append(&mut more);
                            proof {
                                assert(events_view(es@) =~= had + added);
                                let rest = drained(self@, now);
                                assert(had + (added + rest.events) =~= events_view(es@)
                                    + rest.events);
                            }
                        },
                        Err(e) => {
                            assert(had =~= had + Seq::<MediaView>::empty());
                            return (es, Some(e));
                        },
                    }
                },
            }
        }
    }

    /// Takes the next box out of the buffer and handles it.
    fn take_box(&mut self, box_type: u32, box_size: u64, now: u64) -> (r: Result<
        Vec<MediaEvent>,
        BoxError,
    >)
        requires
            old(self).wf(),
            old(self).boxes_seen < u64::MAX,
            old(self).state == (ProcessorState::ReadingBoxData { box_type, box_size }),
            0 < box_size <= old(self)@.buffer.len(),
        ensures
            final(self).wf(),
            match r {
                Ok(es) => drained(old(self)@, now) == behind(
                    events_view(es@),
                    drained(final(self)@, now),
                ) && final(self)@.buffer.len() + box_size == old(self)@.buffer.len()
                    && final(self).boxes_seen == old(self).boxes_seen + 1,
                Err(e) => drained(old(self)@, now) == (BoxStep {
                    after: final(self)@,
                    events: Seq::empty(),
                    error: Some(e),
                }),
            },
    {
        let ghost before = self@;
        let n: usize = buffer_slice(&self.buffer).len();
        assert(n == before.buffer.len());
        let data = self.buffer.split_to(box_size as usize);
        let ghost cut = self@;
        let ghost bytes = outside::buffered(data);
        proof {
            assert(cut =~= (ProcessorView {
                buffer: before.buffer.skip(box_size as int),
                ..before
            }));
            lemma_step_keeps_buffer(cut, box_type, bytes, now);
        }
        let r = self.process_box(box_type, data, now);
        if r.is_ok() {
            let ghost after = self@;
            self.state = ProcessorState::ReadingBoxHeader;
            assert(self@ =~= (ProcessorView { state: self.state, ..after }));
        } else {
            proof {
                let step = box_step(cut, box_type, bytes, now);
                assert(step =~= (BoxStep {
                    after: self@,
                    events: Seq::empty(),
                    error: step.error,
                }));
            }
        }
        r
    }
}

proof fn lemma_step_keeps_buffer(v: ProcessorView, box_type: u32, data: Seq<u8>, now: u64)
    requires
        v.boxes_seen < u64::MAX,
    ensures
        ({
            let step = box_step(v, box_type, data, now);
            &&& step.after.buffer == v.buffer
            &&& step.after.state == v.state
            &&& step.after.boxes_seen == v.boxes_seen + 1
            &&& step.error is Some ==> step.events == Seq::<MediaView>::empty()
        }),
{
    reveal(box_step);
}

/// What comes from the source of a stream.
#[derive(Debug)]
pub enum StreamInput {
    /// Some bytes; none at the end of the stream.
    Data(Vec<u8>),
    /// The source has failed.
    Failed,
    /// Nothing has come for too long.
    TimedOut,
}

/// How a stream ends.
#[derive(Debug, Clone, Copy, PartialEq, Eq, Structural)]
pub enum StreamEnd {
    Done,
    TimedOut,
    Malformed(BoxError),
}

impl Mp4StreamProcessor {
    /// Takes in what comes from the source of a stream. Gives the events of the boxes that are
    /// complete by now and, if the stream is over, how it ended.
    pub fn process_stream(&mut self, input: &StreamInput, now: u64) -> (r: (
        Vec<MediaEvent>,
        Option<StreamEnd>,
    ))
        requires
            old(self).wf(),
            input matches StreamInput::Data(d) ==> {
                &&& old(self)@.kept() + d@.len() <= isize::MAX / 2
                &&& old(self).boxes_seen + old(self)@.buffer.len() + d@.len() < u64::MAX
            },
        ensures
            final(self).wf(),
            match *input {
                StreamInput::Data(d) => if d@.len() == 0 {
                    &&& final(self)@ == old(self)@
                    &&& r.0@.len() == 0
                    &&& r.1 == Some(StreamEnd::Done)
                } else {
                    let step = drained(
                        ProcessorView { buffer: old(self)@.buffer + d@, ..old(self)@ },
                        now,
                    );
                    &&& final(self)@ == step.after
                    &&& events_view(r.0@) == step.events
                    &&& r.1 == match step.error {
                        Some(e) => Some(StreamEnd::Malformed(e)),
                        None => None,
                    }
                },
                StreamInput::Failed => final(self)@ == old(self)@ && r.0@.len() == 0 && r.1
                    == Some(StreamEnd::Done),
                StreamInput::TimedOut => final(self)@ == old(self)@ && r.0@.len() == 0 && r.1
                    == Some(StreamEnd::TimedOut),
            },
    {
        match input {
            StreamInput::Data(d) => {
                if d.len() == 0 {
                    return (Vec::new(), Some(StreamEnd::Done));
                }
                let ghost before = self@;
                self.buffer.extend_from_slice(d.as_slice());
                assert(self@ =~= (ProcessorView { buffer: before.buffer + d@, ..before }));
                let (es, error) = self.process_buffer(now);
                match error {
                    Some(e) => (es, Some(StreamEnd::Malformed(e))),
                    None => (es, None),
                }
            },
            StreamInput::Failed => (Vec::new(), Some(StreamEnd::Done)),
            StreamInput::TimedOut => (Vec::new(), Some(StreamEnd::TimedOut)),
        }
    }
}

/// A processor with more bytes in its buffer.
pub open spec fn with_more(v: ProcessorView, more: Seq<u8>) -> ProcessorView {
    ProcessorView { buffer: v.buffer + more, ..v }
}

proof fn lemma_box_step_carries_buffer(
    v: ProcessorView,
    more: Seq<u8>,
    box_type: u32,
    data: Seq<u8>,
    now: u64,
)
    ensures
        ({
            let step = box_step(v, box_type, data, now);
            &&& step.after.buffer == v.buffer
            &&& box_step(with_more(v, more), box_type, data, now) == (BoxStep {
                after: with_more(step.after, more),
                ..step
            })
        }),
{
    reveal(box_step);
    let step = box_step(v, box_type, data, now);
    let other = box_step(with_more(v, more), box_type, data, now);
    assert(other.after =~= with_more(step.after, more));
    assert(other.events =~= step.events);
}

/// It does not matter how the bytes of a stream are cut up: to take in some bytes, and then more,
/// gives the events and leaves the state that taking them in at once does.
pub proof fn law_chunks_do_not_matter(v: ProcessorView, more: Seq<u8>, now: u64)
    requires
        drained(v, now).error is None,
    ensures
        drained(with_more(v, more), now) == behind(
            drained(v, now).events,
            drained(with_more(drained(v, now).after, more), now),
        ),
    decreases
            v.buffer.len(),
            if v.state is ReadingBoxHeader {
                1nat
            } else {
                0nat
            },
{
    let w = with_more(v, more);
    let first = drained(v, now);
    match v.state {
        ProcessorState::ReadingBoxHeader => match first_box(v.buffer) {
            None => {
                assert(behind(first.events, drained(w, now)) =~= drained(w, now));
            },
            Some((box_type, box_size)) => {
                lemma_first_box_of_more(v.buffer, more);
                let state = ProcessorState::ReadingBoxData { box_type, box_size };
                let next = ProcessorView { state, ..v };
                law_chunks_do_not_matter(next, more, now);
                assert(with_more(next, more) =~= (ProcessorView { state, ..w }));
            },
        },
        ProcessorState::ReadingBoxData { box_type, box_size } => {
            if v.buffer.len() < box_size {
                assert(behind(first.events, drained(w, now)) =~= drained(w, now));
            } else {
                let n = box_size as int;
                assert(w.buffer.take(n) =~= v.buffer.take(n));
                assert(w.buffer.skip(n) =~= v.buffer.skip(n) + more);
                let data = v.buffer.take(n);
                let cut = ProcessorView { buffer: v.buffer.skip(n), ..v };
                assert(with_more(cut, more) =~= (ProcessorView { buffer: w.buffer.skip(n), ..w }));
                lemma_box_step_carries_buffer(cut, more, box_type, data, now);
                let step = box_step(cut, box_type, data, now);
                let state = ProcessorState::ReadingBoxHeader;
                let next = ProcessorView { state, ..step.after };
                law_chunks_do_not_matter(next, more, now);
                assert(with_more(next, more) =~= (ProcessorView {
                    state,
                    ..with_more(step.after, more)
                }));
                let rest = drained(next, now);
                let last = drained(with_more(rest.after, more), now);
                assert(step.events + (rest.events + last.events) =~= (step.events + rest.events)
                    + last.events);
            }
        },
    }
}

proof fn lemma_first_box_of_more(b: Seq<u8>, more: Seq<u8>)
    requires
        first_box(b) is Some,
    ensures
        first_box(b + more) == first_box(b),
{
    let c = b + more;
    assert(forall|i: int| 0 <= i < b.len() ==> c[i] == b[i]);
}

/// The objects of a track are numbered from one in each group, without a gap: a frame takes the
/// number after the last of its track, and the movie fragment of a key frame starts a new group.
pub proof fn law_objects_are_numbered_in_each_group(v: ProcessorView, data: Seq<u8>)
    requires
        v.counters.contains_key(v.last_track_id) ==> v.counters[v.last_track_id] < u64::MAX,
        v.keyframe_count < u64::MAX,
    ensures
        ({
            let step = mdat_step(v, data);
            let frame = step.events[0]->Frame_0;
            &&& frame.group_id == v.keyframe_count
            &&& step.after.counters[v.last_track_id] == frame.object_id
            &&& frame.object_id == if v.counters.contains_key(v.last_track_id) {
                v.counters[v.last_track_id] + 1
            } else {
                1
            }
        }),
        ({
            let step = moof_step(v, data);
            step.error is None ==> if step.after.is_keyframe {
                step.after.counters == Map::<u32, u64>::empty() && step.after.keyframe_count
                    == v.keyframe_count + 1
            } else {
                step.after.counters == v.counters && step.after.keyframe_count
                    == v.keyframe_count
            }
        }),
{
}

/// A box of a stream, and when it came.
pub struct ArrivedBox {
    pub box_type: u32,
    pub data: Seq<u8>,
    pub now: u64,
}

/// What handling one box after the other makes of a processor; the error is that of the first box
/// that cannot be handled.
pub open spec fn handled(v: ProcessorView, bs: Seq<ArrivedBox>) -> BoxStep
    decreases bs.len(),
{
    if bs.len() == 0 {
        no_events(v)
    } else {
        let before = handled(v, bs.drop_last());
        let b = bs.last();
        let step = box_step(before.after, b.box_type, b.data, b.now);
        BoxStep {
            after: step.after,
            events: before.events + step.events,
            error: if before.error is Some {
                before.error
            } else {
                step.error
            },
        }
    }
}

/// How many key frames have been announced.
pub open spec fn keyframes(h: Seq<MediaView>) -> nat
    decreases h.len(),
{
    if h.len() == 0 {
        0
    } else if h.last() is Keyframe {
        keyframes(h.drop_last()) + 1
    } else {
        keyframes(h.drop_last())
    }
}

/// How many frames of a track have come since a key frame was last announced.
pub open spec fn frames_since_keyframe(h: Seq<MediaView>, track_id: Seq<char>) -> nat
    decreases h.len(),
{
    if h.len() == 0 {
        0
    } else {
        match h.last() {
            MediaView::Keyframe(_) => 0,
            MediaView::Frame(f) if f.track_id == track_id => frames_since_keyframe(
                h.drop_last(),
                track_id,
            ) + 1,
            _ => frames_since_keyframe(h.drop_last(), track_id),
        }
    }
}

/// Each frame stands in the group of the key frame last announced, and has the number after that of
/// the frame of its track before it; each key frame opens the next group.
pub open spec fn numbered(h: Seq<MediaView>) -> bool {
    forall|k: int|
        0 <= k < h.len() ==> match #[trigger] h[k] {
            MediaView::Frame(f) => f.group_id == keyframes(h.take(k)) && f.object_id
                == frames_since_keyframe(h.take(k), f.track_id) + 1,
            MediaView::Keyframe(f) => f.group_id == keyframes(h.take(k)) + 1 && f.object_id == 1,
            _ => true,
        }
}

spec fn counted(v: ProcessorView, h: Seq<MediaView>, boxes: nat) -> bool {
    &&& v.keyframe_count == keyframes(h) <= boxes
    &&& forall|id: u32| #[trigger]
        frames_since_keyframe(h, text::dec(id as nat)) == if v.counters.contains_key(id) {
            v.counters[id] as nat
        } else {
            0
        }
    &&& forall|id: u32| #[trigger] v.counters.contains_key(id) ==> v.counters[id] <= boxes
}

proof fn lemma_numbered_of_push(h: Seq<MediaView>, e: MediaView)
    requires
        numbered(h),
        match e {
            MediaView::Frame(f) => f.group_id == keyframes(h) && f.object_id
                == frames_since_keyframe(h, f.track_id) + 1,
            MediaView::Keyframe(f) => f.group_id == keyframes(h) + 1 && f.object_id == 1,
            _ => true,
        },
    ensures
        numbered(h.push(e)),
{
    let g = h.push(e);
    assert forall|k: int| 0 <= k < g.len() implies match #[trigger] g[k] {
        MediaView::Frame(f) => f.group_id == keyframes(g.take(k)) && f.object_id
            == frames_since_keyframe(g.take(k), f.track_id) + 1,
        MediaView::Keyframe(f) => f.group_id == keyframes(g.take(k)) + 1 && f.object_id == 1,
        _ => true,
    } by {
        assert(g.take(k) =~= h.take(k));
        if k < h.len() {
            assert(g[k] == h[k]);
        } else {
            assert(h.take(k) =~= h);
        }
    }
}

proof fn lemma_events_are_counted(v: ProcessorView, bs: Seq<ArrivedBox>)
    requires
        v.keyframe_count == 0,
        v.counters == Map::<u32, u64>::empty(),
        bs.len() < u64::MAX,
    ensures
        numbered(handled(v, bs).events),
        counted(handled(v, bs).after, handled(v, bs).events, bs.len()),
    decreases bs.len(),
{
    if bs.len() > 0 {
        lemma_events_are_counted(v, bs.drop_last());
        let before = handled(v, bs.drop_last());
        let h = before.events;
        let at = before.after;
        let b = bs.last();
        let after = handled(v, bs).after;
        reveal(box_step);
        let step = box_step(at, b.box_type, b.data, b.now);
        if step.events.len() == 0 {
            assert(h + step.events =~= h);
            assert(counted(after, h, bs.len()));
        } else if b.box_type == MOOV {
            let g = h.push(step.events[0]);
            assert(h + step.events =~= g);
            assert(g.drop_last() =~= h);
            lemma_numbered_of_push(h, step.events[0]);
            assert forall|id: u32| #[trigger]
                frames_since_keyframe(g, text::dec(id as nat)) == frames_since_keyframe(
                h,
                text::dec(id as nat),
            ) by {}
            assert(counted(after, g, bs.len()));
        } else if b.box_type == MOOF {
            let g = h.push(step.events[0]);
            assert(g.drop_last() =~= h);
            lemma_numbered_of_push(h, step.events[0]);
            assert(g.push(step.events[1]).drop_last() =~= g);
            lemma_numbered_of_push(g, step.events[1]);
            let all = g.push(step.events[1]);
            assert(h + step.events =~= all);
            assert(keyframes(all) == keyframes(g) == keyframes(h) + 1);
            assert forall|id: u32| #[trigger]
                frames_since_keyframe(all, text::dec(id as nat)) == 0 by {
                assert(frames_since_keyframe(g, text::dec(id as nat)) == 0);
            }
            assert(counted(after, all, bs.len()));
        } else {
            let g = h.push(step.events[0]);
            assert(h + step.events =~= g);
            assert(g.drop_last() =~= h);
            let t = at.last_track_id;
            assert(frames_since_keyframe(h, text::dec(t as nat)) + 1 == next_object(at));
            lemma_numbered_of_push(h, step.events[0]);
            assert forall|id: u32| #[trigger]
                frames_since_keyframe(g, text::dec(id as nat)) == if after.counters.contains_key(
                    id,
                ) {
                    after.counters[id] as nat
                } else {
                    0
                } by {
                text::law_decimal_reads_back(id as nat);
                text::law_decimal_reads_back(t as nat);
                assert(frames_since_keyframe(h, text::dec(id as nat)) == if at.counters.contains_key(
                    id,
                ) {
                    at.counters[id] as nat
                } else {
                    0
                });
            }
        }
    }
}

/// Over any run of boxes, the frames of a track are numbered from one in each group, without a gap
/// and apart from those of other tracks; a group is opened by each key frame, and the groups are
/// numbered in turn. The frame that media data completes goes on from there.
pub proof fn law_frames_are_numbered_over_a_run(
    v: ProcessorView,
    bs: Seq<ArrivedBox>,
    data: Seq<u8>,
    now: u64,
)
    requires
        v.keyframe_count == 0,
        v.counters == Map::<u32, u64>::empty(),
        bs.len() < u64::MAX,
    ensures
        numbered(handled(v, bs).events),
        ({
            let at = handled(v, bs).after;
            let h = handled(v, bs).events;
            let track_id = text::dec(at.last_track_id as nat);
            let mdat = ArrivedBox { box_type: MDAT, data, now };
            &&& keyframes(h) <= bs.len() && frames_since_keyframe(h, track_id) <= bs.len()
            &&& handled(v, bs.push(mdat)).events == h.push(
                MediaView::Frame(
                    FrameView {
                        track_id,
                        data: at.last_prft_box + at.last_moof + data,
                        group_id: keyframes(h) as u64,
                        object_id: (frames_since_keyframe(h, track_id) + 1) as u64,
                    },
                ),
            )
        }),
{
    lemma_events_are_counted(v, bs);
    let at = handled(v, bs).after;
    let h = handled(v, bs).events;
    let mdat = ArrivedBox { box_type: MDAT, data, now };
    assert(bs.push(mdat).drop_last() =~= bs);
    reveal(box_step);
    let step = box_step(at, MDAT, data, now);
    assert(h + step.events =~= h.push(step.events[0]));
}

/// The reference time is read as it was written: a box of version 0 holds the media time in four
/// bytes, one of any other version in eight, both highest byte first and behind the wall clock's
/// eight. Nothing else of the processor changes but the box that goes before the next frames.
pub proof fn law_reference_time_is_read_back(
    v: ProcessorView,
    data: Seq<u8>,
    ntp: u64,
    media_time: u64,
)
    requires
        data.len() >= 28,
        data.subrange(16, 24) == outside::big_endian(ntp as nat, 8),
    ensures
        ({
            let step = prft_step(v, data);
            let long = data.len() >= 32 && data.subrange(24, 32) == outside::big_endian(
                media_time as nat,
                8,
            );
            let short = media_time < 0x1_0000_0000 && data.subrange(24, 28) == outside::big_endian(
                media_time as nat,
                4,
            );
            (data[8] == 0 && short) || (data[8] != 0 && long) ==> {
                &&& step.error is None
                &&& step.events.len() == 0
                &&& step.after.last_media_time == media_time
                &&& step.after.last_ntp_timestamp == ntp
                &&& step.after.last_prft_box == data
                &&& step.after == (ProcessorView {
                    last_media_time: media_time,
                    last_ntp_timestamp: ntp,
                    last_prft_box: data,
                    ..v
                })
            }
        }),
{
    boxes::law_eight_bytes_are_read_back(data, 16, ntp);
    if data[8] == 0 {
        if media_time < 0x1_0000_0000 && data.subrange(24, 28) == outside::big_endian(
            media_time as nat,
            4,
        ) {
            boxes::law_four_bytes_are_read_back(data, 24, media_time as u32);
        }
    } else if data.len() >= 32 && data.subrange(24, 32) == outside::big_endian(
        media_time as nat,
        8,
    ) {
        boxes::law_eight_bytes_are_read_back(data, 24, media_time);
    }
}

proof fn lemma_reference_time_lasts(v: ProcessorView, bs: Seq<ArrivedBox>)
    requires
        forall|i: int| 0 <= i < bs.len() ==> (#[trigger] bs[i]).box_type != PRFT,
    ensures
        handled(v, bs).after.last_media_time == v.last_media_time,
        handled(v, bs).after.last_ntp_timestamp == v.last_ntp_timestamp,
        handled(v, bs).after.last_prft_box == v.last_prft_box,
    decreases bs.len(),
{
    if bs.len() > 0 {
        let init = bs.drop_last();
        assert forall|i: int| 0 <= i < init.len() implies (#[trigger] init[i]).box_type != PRFT by {
            assert(init[i] == bs[i]);
        }
        lemma_reference_time_lasts(v, init);
        reveal(box_step);
        assert(bs.last() == bs[bs.len() - 1]);
    }
}

/// The time of a group is the reference time that came last, whatever other boxes came since: it
/// carries the media time and the wall clock of that box as they were written there, the track and
/// the number of the group that the key frame starts.
pub proof fn law_a_group_has_the_reference_time_before_it(
    v: ProcessorView,
    data: Seq<u8>,
    ntp: u64,
    media_time: u64,
    between: Seq<ArrivedBox>,
    fragment: Seq<u8>,
    i: int,
    now: u64,
)
    requires
        data.len() >= 32,
        data.subrange(16, 24) == outside::big_endian(ntp as nat, 8),
        data[8] != 0 ==> data.subrange(24, 32) == outside::big_endian(media_time as nat, 8),
        data[8] == 0 ==> media_time < 0x1_0000_0000 && data.subrange(24, 28)
            == outside::big_endian(media_time as nat, 4),
        forall|j: int| 0 <= j < between.len() ==> (#[trigger] between[j]).box_type != PRFT,
    ensures
        ({
            let timed = box_step(v, PRFT, data, now).after;
            let at = handled(timed, between).after;
            let step = box_step(at, MOOF, fragment, now);
            0 <= i < step.events.len() ==> (step.events[i] matches MediaView::TimeEvent(t) ==> {
                &&& t.media_time == media_time
                &&& t.ntp_timestamp == ntp
                &&& t.group_id == step.after.keyframe_count
                &&& t.track_id == step.after.last_track_id
            })
        }),
{
    let seen = ProcessorView { boxes_seen: (v.boxes_seen + 1) as u64, ..v };
    law_reference_time_is_read_back(seen, data, ntp, media_time);
    reveal(box_step);
    let timed = box_step(v, PRFT, data, now).after;
    lemma_reference_time_lasts(timed, between);
}

/// A box that is too short for what it must hold changes nothing: none of less than 28 bytes is a
/// reference time, and none of another version than 0 with less than 32.
pub proof fn law_short_boxes_change_nothing(v: ProcessorView, data: Seq<u8>, now: u64)
    ensures
        prft_step(v, data).error == Some(BoxError::ShortBox) <==> data.len() < 28 || (data[8] != 0
            && data.len() < 32),
        prft_step(v, data).error is Some ==> prft_step(v, data).after == v,
        moof_step(v, data).error is Some ==> moof_step(v, data).after == v,
        moov_step(v, data, now).error is Some <==> !v.moov_processed && data.len() < 8,
        moov_step(v, data, now).error is Some ==> moov_step(v, data, now).after == v,
        ftyp_step(v, data).error is None && mdat_step(v, data).error is None,
        data.len() < 8 ==> moof_step(v, data).error == Some(BoxError::ShortBox),
{
}

/// The header of a box is read back as it was written: the type behind four bytes of size, or,
/// where these say one, the type and then eight bytes of size. Until as many bytes have come,
/// nothing is read.
pub proof fn law_box_headers_are_read_back(b: Seq<u8>, box_type: u32, box_size: u64)
    ensures
        b.len() >= 8 && b.subrange(4, 8) == outside::big_endian(box_type as nat, 4) && box_size != 1
            && box_size <= u32::MAX && b.subrange(0, 4) == outside::big_endian(box_size as nat, 4)
            ==> first_box(b) == Some((box_type, box_size)),
        b.len() >= 16 && b.subrange(4, 8) == outside::big_endian(box_type as nat, 4)
            && b.subrange(0, 4) == outside::big_endian(1, 4) && b.subrange(8, 16)
            == outside::big_endian(box_size as nat, 8) ==> first_box(b) == Some(
            (box_type, box_size),
        ),
        b.len() < 8 ==> first_box(b) is None,
        b.len() < 16 && first_box(b) is None && b.len() >= 8 ==> boxes::be32(b, 0) == 1,
        b.len() >= 16 ==> first_box(b) is Some,
{
    if b.len() >= 8 && b.subrange(4, 8) == outside::big_endian(box_type as nat, 4) {
        boxes::law_four_bytes_are_read_back(b, 4, box_type);
        if box_size <= u32::MAX && b.subrange(0, 4) == outside::big_endian(box_size as nat, 4) {
            boxes::law_four_bytes_are_read_back(b, 0, box_size as u32);
        }
        if b.subrange(0, 4) == outside::big_endian(1, 4) {
            boxes::law_four_bytes_are_read_back(b, 0, 1);
        }
        if b.len() >= 16 && b.subrange(8, 16) == outside::big_endian(box_size as nat, 8) {
            boxes::law_eight_bytes_are_read_back(b, 8, box_size);
        }
    }
}

/// A stream is cut at the ends of its boxes: a whole box at the front, of the size that its header
/// says, is handled with exactly its own bytes, header and all, and what follows is handled as if
/// it had come alone.
pub proof fn law_boxes_are_taken_whole(
    v: ProcessorView,
    whole: Seq<u8>,
    rest: Seq<u8>,
    box_type: u32,
    now: u64,
)
    requires
        v.state is ReadingBoxHeader,
        v.buffer == whole + rest,
        whole.len() > 0,
        first_box(whole) == Some((box_type, whole.len() as u64)),
        whole.len() <= u64::MAX,
    ensures
        ({
            let alone = box_step(
                ProcessorView {
                    buffer: rest,
                    state: ProcessorState::ReadingBoxData {
                        box_type,
                        box_size: whole.len() as u64,
                    },
                    ..v
                },
                box_type,
                whole,
                now,
            );
            &&& alone.error is Some ==> drained(v, now) == alone
            &&& alone.error is None ==> drained(v, now) == behind(
                alone.events,
                drained(
                    ProcessorView {
                        buffer: rest,
                        state: ProcessorState::ReadingBoxHeader,
                        ..alone.after
                    },
                    now,
                ),
            )
        }),
{
    lemma_first_box_of_more(whole, rest);
    let n = whole.len() as int;
    let state = ProcessorState::ReadingBoxData { box_type, box_size: n as u64 };
    let w = ProcessorView { state, ..v };
    assert(drained(v, now) == drained(w, now));
    assert(w.buffer.take(n) =~= whole);
    assert(w.buffer.skip(n) =~= rest);
    let cut = ProcessorView { buffer: rest, state, ..v };
    lemma_box_step_carries_buffer(cut, Seq::empty(), box_type, whole, now);
    let alone = box_step(cut, box_type, whole, now);
    assert(alone.after.buffer == rest);
}

/// The first file type and the first movie make up the initialization segment, in the order in
/// which they come and byte for byte; later ones change nothing. The movie gives the catalog, once,
/// and the catalog carries that segment.
pub proof fn law_initialization_segment_is_type_and_movie(
    v: ProcessorView,
    ftyp: Seq<u8>,
    moov: Seq<u8>,
    again: Seq<u8>,
    now: u64,
    later: u64,
)
    requires
        !v.ftyp_processed,
        !v.moov_processed,
        v.init_segment.len() == 0,
        moov.len() >= 8,
    ensures
        ({
            let typed = ftyp_step(v, ftyp).after;
            let step = moov_step(typed, moov, now);
            &&& ftyp_step(v, ftyp).events.len() == 0
            &&& step.error is None
            &&& step.after.init_segment == ftyp + moov
            &&& step.events.len() == 1
            &&& step.events[0] matches MediaView::Catalog(c) && {
                &&& c.generated_at == now
                &&& c.tracks.len() == step.after.tracks.len() + 1
                &&& forall|i: int|
                    0 <= i < step.after.tracks.len() ==> (#[trigger] c.tracks[i]).init_data == Some(
                        outside::base64_of(ftyp + moov),
                    )
            }
            &&& ftyp_step(step.after, again) == no_events(step.after)
            &&& moov_step(step.after, again, later) == no_events(step.after)
            &&& no_events(step.after).events.len() == 0 && no_events(step.after).error is None
        }),
{
    let typed = ftyp_step(v, ftyp).after;
    assert(typed.init_segment =~= ftyp);
    let step = moov_step(typed, moov, now);
    let c = step.events[0]->Catalog_0;
    assert(forall|i: int|
        0 <= i < step.after.tracks.len() ==> #[trigger] c.tracks[i] == catalog_entry(
            step.after.tracks[i],
            ftyp + moov,
        ));
}

/// The catalog lists every track of the movie under its own id, with its type as role, its codec
/// and the initialization segment, and behind them one timeline that goes with all of them.
pub proof fn law_catalog_lists_every_track(
    ts: Seq<TrackInfoView>,
    init: Seq<u8>,
    now: u64,
    i: int,
)
    requires
        0 <= i < ts.len(),
    ensures
        ({
            let c = catalog_of(ts, init, now);
            let t = c.tracks[i];
            let timeline = c.tracks.last();
            &&& c.generated_at == now
            &&& c.tracks.len() == ts.len() + 1
            &&& t.track_name == text::dec(ts[i].track_id as nat)
            &&& t.role == ts[i].track_type.text()
            &&& t.codec == ts[i].codec
            &&& t.is_live && t.packaging is ChunkPerObject
            &&& t.render_group == 1 && t.alt_group == 1
            &&& t.width == 0 && t.height == 0 && t.bitrate == 0 && t.framerate == 0
            &&& t.mime_type is None
            &&& timeline.is_live && timeline.render_group == 1 && timeline.alt_group == 1
            &&& timeline.role == "timeline"@ && timeline.codec == ""@
            &&& c.version == 1
            &&& t.init_data == Some(outside::base64_of(init))
            &&& t.depends is None
            &&& timeline.track_name == "timeline"@ && timeline.packaging is Timeline
            &&& timeline.init_data is None && timeline.mime_type == Some("text/csv"@)
            &&& timeline.depends matches Some(d) && d.len() == ts.len() && d[i] == t.track_name
        }),
{
}

/// A frame is the last reference time, the last movie fragment and its media data, one behind the
/// other; it belongs to the track of that fragment and to the group that the last key frame
/// started.
pub proof fn law_a_frame_is_its_fragment_and_its_data(
    v: ProcessorView,
    fragment: Seq<u8>,
    data: Seq<u8>,
)
    requires
        moof_step(v, fragment).error is None,
    ensures
        ({
            let at = moof_step(v, fragment).after;
            let step = mdat_step(at, data);
            &&& step.events.len() == 1
            &&& step.events[0] matches MediaView::Frame(f) && {
                &&& f.data == v.last_prft_box + fragment + data
                &&& f.group_id == at.keyframe_count
                &&& Ok::<u32, BoxError>(at.last_track_id) == fragment_track(fragment)
                &&& f.track_id == text::dec(at.last_track_id as nat)
            }
            &&& !step.after.is_keyframe
            &&& at.frame_count < u64::MAX ==> step.after.frame_count == at.frame_count + 1
            &&& at.frame_count == v.frame_count
            &&& step.after.last_prft_box == v.last_prft_box
            &&& step.after.keyframe_count == at.keyframe_count
            &&& step.after.last_moof == fragment
            &&& forall|k: u32|
                k != at.last_track_id ==> (#[trigger] step.after.counters.contains_key(k)
                    <==> at.counters.contains_key(k))
        }),
{
}

/// Only a fragment of a video track starts a group, and it does so exactly where it holds a key
/// frame. It is announced with the number of the group, the first object and the fragment that came
/// before it, and then with its time. Any other fragment is announced by nothing.
pub proof fn law_groups_start_at_video_key_frames(v: ProcessorView, data: Seq<u8>, id: u32)
    requires
        data.len() >= 8,
        fragment_track(data) == Ok::<u32, BoxError>(id),
        v.keyframe_count < u64::MAX,
        v.last_group_frame_count < u64::MAX,
    ensures
        ({
            let step = moof_step(v, data);
            let starts = known_type(v.tracks, id) is Video && keyframe_in(data, v.frame_count);
            &&& step.error is None
            &&& step.after.last_moof == data
            &&& step.after.last_track_id == id
            &&& step.after.last_track_type == known_type(v.tracks, id)
            &&& step.after.is_keyframe <==> starts
            &&& starts ==> {
                &&& step.events.len() == 2
                &&& step.after.last_group_frame_count == 1
                &&& step.events[0] matches MediaView::Keyframe(f) && f.group_id == v.keyframe_count
                    + 1 && f.object_id == 1 && f.data == v.last_moof && f.track_id == text::dec(
                    id as nat,
                )
                &&& step.events[1] matches MediaView::TimeEvent(t) && t.group_id
                    == v.keyframe_count + 1 && t.track_id == id
            }
            &&& !starts ==> step.events.len() == 0 && step.after.last_group_frame_count
                == v.last_group_frame_count + 1
        }),
{
}

/// The type of a track is that of the first entry with its id; a track without one is of no known
/// type.
pub proof fn law_track_types_go_by_id(ts: Seq<TrackInfoView>, id: u32, k: int)
    requires
        0 <= k <= ts.len(),
        forall|j: int| 0 <= j < k ==> (#[trigger] ts[j]).track_id != id,
        k < ts.len() ==> ts[k].track_id == id,
    ensures
        k < ts.len() ==> known_type(ts, id) == ts[k].track_type,
        k == ts.len() ==> known_type(ts, id) is Other,
{
    lemma_place_of(ts, id, k);
}

/// The list of tracks names every track of the movie once, and as the movie's last track of that id
/// describes it.
pub proof fn law_track_list_names_every_track_once(ms: Seq<MovieTrack>, k: int)
    requires
        0 <= k < ms.len(),
        forall|j: int| k < j < ms.len() ==> (#[trigger] ms[j]).track_id != ms[k].track_id,
    ensures
        track_map_of(ms).contains(
            (TrackInfoView {
                track_id: ms[k].track_id,
                track_type: type_of(ms[k].handler),
                codec: codec_of(ms[k]),
            }),
        ),
        known_type(track_map_of(ms), ms[k].track_id) == type_of(ms[k].handler),
        forall|a: int, b: int|
            0 <= a < b < track_map_of(ms).len() ==> (#[trigger] track_map_of(ms)[a]).track_id != (
            #[trigger] track_map_of(ms)[b]).track_id,
    decreases ms.len(),
{
    lemma_track_map_ids(ms);
    let n = ms.len() - 1;
    let m = ms.last();
    assert(m == ms[n]);
    let before = track_map_of(ms.drop_last());
    let now = track_map_of(ms);
    lemma_track_map_ids(ms.drop_last());
    let t = TrackInfoView {
        track_id: ms[k].track_id,
        track_type: type_of(ms[k].handler),
        codec: codec_of(ms[k]),
    };
    lemma_place_found(before, m.track_id);
    let i = place_of(before, m.track_id) as int;
    if k == n {
        assert(now[i] == t);
        lemma_place_of_distinct(now, i);
    } else {
        let init = ms.drop_last();
        assert(ms[n].track_id != ms[k].track_id);
        assert forall|j: int| k < j < init.len() implies (#[trigger] init[j]).track_id
            != init[k].track_id by {
            assert(init[j] == ms[j]);
        }
        law_track_list_names_every_track_once(init, k);
        let a = choose|a: int| 0 <= a < before.len() && before[a] == t;
        assert(a != i);
        assert(now[a] == t);
        lemma_place_of_distinct(now, a);
    }
}

proof fn lemma_place_found(ts: Seq<TrackInfoView>, id: u32)
    ensures
        place_of(ts, id) <= ts.len(),
        place_of(ts, id) < ts.len() ==> ts[place_of(ts, id) as int].track_id == id,
        forall|j: int| 0 <= j < place_of(ts, id) ==> (#[trigger] ts[j]).track_id != id,
    decreases ts.len(),
{
    if ts.len() > 0 && ts[0].track_id != id {
        let r = ts.skip(1);
        lemma_place_found(r, id);
        assert forall|j: int| 0 <= j < place_of(ts, id) implies (#[trigger] ts[j]).track_id
            != id by {
            if j > 0 {
                assert(r[j - 1] == ts[j]);
            }
        }
    }
}

proof fn lemma_place_of_distinct(ts: Seq<TrackInfoView>, i: int)
    requires
        0 <= i < ts.len(),
        forall|a: int, b: int|
            0 <= a < b < ts.len() ==> (#[trigger] ts[a]).track_id != (#[trigger] ts[b]).track_id,
    ensures
        place_of(ts, ts[i].track_id) == i,
{
    lemma_place_of(ts, ts[i].track_id, i);
}

proof fn lemma_track_map_ids(ms: Seq<MovieTrack>)
    ensures
        forall|a: int, b: int|
            0 <= a < b < track_map_of(ms).len() ==> (#[trigger] track_map_of(ms)[a]).track_id != (
            #[trigger] track_map_of(ms)[b]).track_id,
    decreases ms.len(),
{
    if ms.len() > 0 {
        let before = track_map_of(ms.drop_last());
        lemma_track_map_ids(ms.drop_last());
        lemma_place_found(before, ms.last().track_id);
        let i = place_of(before, ms.last().track_id) as int;
        let now = track_map_of(ms);
        assert forall|a: int, b: int| 0 <= a < b < now.len() implies (#[trigger] now[a]).track_id
            != (#[trigger] now[b]).track_id by {
            if i < before.len() {
                assert(before[a].track_id != before[b].track_id);
                assert(now[a].track_id == before[a].track_id);
                assert(now[b].track_id == before[b].track_id);
            } else {
                assert(now[a] == before[a]);
                if b < before.len() {
                    assert(now[b] == before[b]);
                }
            }
        }
    }
}

/// A handler is a video's or a sound's exactly where its four letters are `vide` or `soun`.
pub proof fn law_handlers_are_spelled_out(s: Seq<u8>, p: int)
    requires
        0 <= p,
        p + 4 <= s.len(),
    ensures
        type_of(boxes::be32(s, p)) is Video <==> s.subrange(p, p + 4) == seq![
            118u8,
            105u8,
            100u8,
            101u8,
        ],
        type_of(boxes::be32(s, p)) is Audio <==> s.subrange(p, p + 4) == seq![
            115u8,
            111u8,
            117u8,
            110u8,
        ],
{
    let b = s.subrange(p, p + 4);
    assert(b[0] == s[p] && b[1] == s[p + 1] && b[2] == s[p + 2] && b[3] == s[p + 3]);
    if type_of(boxes::be32(s, p)) is Video {
        assert(b =~= seq![118u8, 105u8, 100u8, 101u8]);
    }
    if type_of(boxes::be32(s, p)) is Audio {
        assert(b =~= seq![115u8, 111u8, 117u8, 110u8]);
    }
}

/// Flags are a key frame's where the two bits that say on what the sample depends hold two, for
/// nothing, and the bit that says that it is no sync sample is clear; no other bit counts.
pub proof fn law_key_frame_flags(flags: u32)
    ensures
        is_key(flags) <==> (flags / 0x100_0000) % 4 == 2 && (flags / 0x1_0000) % 2 == 0,
{
    assert(((flags >> 24u32) & 0x3 == 0x2) == ((flags / 0x100_0000) % 4 == 2)) by (bit_vector);
    assert((flags & 0x10000 != 0x10000) == ((flags / 0x1_0000) % 2 == 0)) by (bit_vector);
}

/// A run holds a key frame exactly where one of its samples is one. The first sample goes by the
/// run's flags for it, where there are such; any other, and the first where there are none, by its
/// own, and where it has none by the fragment's default.
pub proof fn law_key_frames_of_a_run(r: SampleRunView, default_flags: u32, j: int)
    requires
        0 <= j < r.sample_count,
    ensures
        j == 0 && r.first_sample_flags is Some && is_key(r.first_sample_flags->Some_0)
            ==> run_has_key(r, default_flags),
        (j > 0 || r.first_sample_flags is None) && j < r.sample_flags.len() && is_key(
            r.sample_flags[j],
        ) ==> run_has_key(r, default_flags),
        (j > 0 || r.first_sample_flags is None) && j >= r.sample_flags.len() && is_key(
            default_flags,
        ) ==> run_has_key(r, default_flags),
        !is_key(default_flags) && (r.first_sample_flags matches Some(f) ==> !is_key(f)) && (
        forall|k: int| 0 <= k < r.sample_flags.len() ==> !is_key(#[trigger] r.sample_flags[k]))
            ==> !run_has_key(r, default_flags),
{
    if is_key(flags_of(r, j, default_flags)) {
        assert(run_has_key(r, default_flags));
    }
}

/// Fragments are looked through in order, up to the first without a run: one that holds a key frame
/// and has only fragments with runs before it counts, and one behind a fragment without a run does
/// not.
pub proof fn law_key_frames_of_fragments(
    before: Seq<TrackFragmentView>,
    f: TrackFragmentView,
    behind: Seq<TrackFragmentView>,
)
    requires
        forall|i: int| 0 <= i < before.len() ==> (#[trigger] before[i]).run is Some,
    ensures
        f.run is None ==> has_key(before.push(f) + behind) == has_key(before),
        f.run matches Some(r) ==> has_key(before.push(f) + behind) == (has_key(before)
            || run_has_key(
            r,
            match f.default_sample_flags {
                Some(d) => d,
                None => 0,
            },
        ) || has_key(behind)),
        !has_key(Seq::empty()),
    decreases before.len(),
{
    let all = before.push(f) + behind;
    if before.len() == 0 {
        assert(all[0] == f);
        assert(all.skip(1) =~= behind);
    } else {
        let r = before.skip(1);
        assert(all[0] == before[0]);
        assert(all.skip(1) =~= r.push(f) + behind);
        assert forall|i: int| 0 <= i < r.len() implies (#[trigger] r[i]).run is Some by {
            assert(r[i] == before[i + 1]);
        }
        law_key_frames_of_fragments(r, f, behind);
    }
}

/// A fragment that cannot be read is taken for a key frame once in 25 frames, from the first on, and
/// belongs to no track.
pub proof fn law_unreadable_fragments_count_frames(data: Seq<u8>, n: u64, m: u64)
    requires
        moof_known(data) is None,
    ensures
        keyframe_in(data, 0),
        0 < n < 25 ==> !keyframe_in(data, n),
        m == n + 25 ==> keyframe_in(data, n) == keyframe_in(data, m),
        fragment_track(data) == Err::<u32, BoxError>(BoxError::BadFragment),
{
}

/// The codec names the first description that a track has, in the order AVC, HEVC, VP9, AAC, text;
/// that of an AVC track ends with its profile, compatibility and level.
pub proof fn law_codecs_are_named_in_order(t: MovieTrack)
    ensures
        t.avc1 matches Some(a) ==> codec_of(t).len() == 5 + hex(a.profile).len() + hex(
            a.compatibility,
        ).len() + hex(a.level).len() && "avc1."@.is_prefix_of(codec_of(t)),
        t.avc1 is None && t.hev1 ==> codec_of(t) == "hev1"@,
        t.avc1 is None && !t.hev1 && t.vp09 ==> codec_of(t) == "vp09"@,
        t.avc1 is None && !t.hev1 && !t.vp09 && t.mp4a ==> codec_of(t) == "mp4a.40.2"@,
        t.avc1 is None && !t.hev1 && !t.vp09 && !t.mp4a && t.tx3g ==> codec_of(t) == "tx3g"@,
        t.avc1 is None && !t.hev1 && !t.vp09 && !t.mp4a && !t.tx3g ==> codec_of(t) == "unknown"@,
{
    reveal_strlit("avc1.");
}

/// What a digit of base sixteen is worth.
pub open spec fn hex_worth(c: char) -> int {
    if '0' <= c <= '9' {
        c as int - '0' as int
    } else {
        c as int - 'A' as int + 10
    }
}

/// A byte in base sixteen is worth the byte, in the fewest digits, the higher first.
pub proof fn law_hex_is_worth_its_byte(n: u8)
    ensures
        hex(n).len() == if n < 16 {
            1int
        } else {
            2
        },
        hex(n).len() == 1 ==> hex_worth(hex(n)[0]) == n,
        hex(n).len() == 2 ==> hex_worth(hex(n)[0]) * 16 + hex_worth(hex(n)[1]) == n,
{
    reveal_strlit("0123456789ABCDEF");
}

/// A fragment that can be read belongs to the track of its first track fragment and holds a key
/// frame where one of its track fragments does; a movie that can be read gives its tracks.
pub proof fn law_readable_boxes_say_what_they_hold(
    data: Seq<u8>,
    fs: Seq<TrackFragmentView>,
    ms: Seq<MovieTrack>,
    frame_count: u64,
)
    ensures
        boxes::moof_ok(data) && outside::moof_fragments(data) == Some(fs) ==> {
            &&& keyframe_in(data, frame_count) == has_key(fs)
            &&& fs.len() > 0 ==> fragment_track(data) == Ok::<u32, BoxError>(fs[0].track_id)
            &&& fs.len() == 0 ==> fragment_track(data) == Err::<u32, BoxError>(
                BoxError::NoTrackFragment,
            )
        },
        boxes::moov_ok(data) && outside::moov_tracks(data) == Some(ms) ==> moov_known(data) == Some(
            track_map_of(ms),
        ),
        !boxes::moov_ok(data) ==> moov_known(data) is None,
        !boxes::moof_ok(data) ==> moof_known(data) is None,
{
}

} // verus!
