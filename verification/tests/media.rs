//! The MP4 processor and the catalog.
use bytes::BytesMut;
use moqtail_apps::catalog::{Catalog, CatalogTrack, PackagingType};
use moqtail_apps::mp4_processor::{
    build_catalog, build_track_map, codec_text, find_keyframe, BoxError, MediaEvent,
    Mp4StreamProcessor, StreamEnd, StreamInput, TrackType, MDAT, MOOF, MOOV, PRFT,
};
use moqtail_apps::outside::{AvcProfile, MovieTrack, SampleRun, TrackFragment};
use mp4::WriteBox;

fn boxed(kind: &[u8; 4], body: &[u8]) -> Vec<u8> {
    let mut v = ((body.len() + 8) as u32).to_be_bytes().to_vec();
    v.extend_from_slice(kind);
    v.extend_from_slice(body);
    v
}

fn moov() -> Vec<u8> {
    let mut moov = mp4::MoovBox::default();
    for (id, handler) in [(1u32, *b"vide"), (2u32, *b"soun")] {
        moov.traks.push(Default::default());
        let t = moov.traks.last_mut().unwrap();
        t.tkhd.track_id = id;
        t.mdia.hdlr.handler_type = mp4::FourCC::from(handler);
        t.mdia.minf.stbl.stco = Some(Default::default());
        let d = &mut t.mdia.minf.stbl.stsd;
        if id == 1 {
            d.avc1 = Some(Default::default());
            let avcc = &mut d.avc1.as_mut().unwrap().avcc;
            avcc.avc_profile_indication = 0x64;
            avcc.profile_compatibility = 0;
            avcc.avc_level_indication = 0x1f;
        } else {
            d.mp4a = Some(Default::default());
        }
    }
    let mut out = Vec::new();
    moov.write_box(&mut out).unwrap();
    out
}

fn words(ws: &[u32]) -> Vec<u8> {
    ws.iter().flat_map(|w| w.to_be_bytes()).collect()
}

fn moof(track_id: u32, key: bool) -> Vec<u8> {
    let flags = if key { 0x0200_0000 } else { 0x0101_0000 };
    let mut traf = boxed(b"tfhd", &words(&[0, track_id]));
    // One sample, with its flags.
    traf.extend(boxed(b"trun", &words(&[0x400, 1, flags])));
    let mut body = boxed(b"mfhd", &words(&[0, 1]));
    body.extend(boxed(b"traf", &traf));
    boxed(b"moof", &body)
}

fn prft(ntp: u64, media_time: u32) -> Vec<u8> {
    let mut body = vec![0, 0, 0, 0];
    body.extend_from_slice(&1u32.to_be_bytes());
    body.extend_from_slice(&ntp.to_be_bytes());
    body.extend_from_slice(&media_time.to_be_bytes());
    boxed(b"prft", &body)
}

fn stream() -> Vec<u8> {
    let mut all = boxed(b"ftyp", b"isom\0\0\0\0");
    all.extend(moov());
    all.extend(prft(77, 1000));
    all.extend(moof(1, true));
    all.extend(boxed(b"mdat", b"key"));
    all.extend(boxed(b"free", b"passed over"));
    all.extend(moof(2, true));
    all.extend(boxed(b"mdat", b"sound"));
    all.extend(moof(1, false));
    all.extend(boxed(b"mdat", b"delta"));
    all.extend(moof(1, true));
    all.extend(boxed(b"mdat", b"next"));
    all
}

fn shown(events: &[MediaEvent]) -> Vec<String> {
    events
        .iter()
        .map(|e| match e {
            MediaEvent::Catalog(c) => format!("catalog {}", c.tracks.len()),
            MediaEvent::Keyframe(f) => format!("key {} {}/{}", f.track_id, f.group_id, f.object_id),
            MediaEvent::TimeEvent(t) => {
                format!("time {} {} {} {}", t.track_id, t.ntp_timestamp, t.media_time, t.group_id)
            }
            MediaEvent::Frame(f) => format!("frame {} {}/{}", f.track_id, f.group_id, f.object_id),
        })
        .collect()
}

const EXPECTED: [&str; 9] = [
    "catalog 3",
    "key 1 1/1",
    "time 1 77 1000 1",
    "frame 1 1/1",
    "frame 2 1/1",
    "frame 1 1/2",
    "key 1 2/1",
    "time 1 77 1000 2",
    "frame 1 2/1",
];

#[test]
fn a_stream_becomes_a_catalog_and_frames() {
    let mut p = Mp4StreamProcessor::new();
    let (events, end) = p.process_stream(&StreamInput::Data(stream()), 5);
    assert_eq!(end, None);
    assert_eq!(shown(&events), EXPECTED);
    // A frame is the reference time, the fragment and the media data together.
    let mut whole = prft(77, 1000);
    whole.extend(moof(1, true));
    whole.extend(boxed(b"mdat", b"key"));
    match &events[3] {
        MediaEvent::Frame(f) => assert_eq!(&f.data[..], &whole[..]),
        other => panic!("{other:?}"),
    }
    match &events[0] {
        MediaEvent::Catalog(c) => {
            assert_eq!(c.generated_at, 5);
            assert_eq!((c.tracks[0].track_name.as_str(), c.tracks[0].role.as_str()), ("1", "video"));
            assert_eq!(c.tracks[0].codec, "avc1.6401F");
            assert_eq!((c.tracks[1].role.as_str(), c.tracks[1].codec.as_str()), ("audio", "mp4a.40.2"));
            let mut init = boxed(b"ftyp", b"isom\0\0\0\0");
            init.extend(moov());
            let engine = &base64::engine::general_purpose::STANDARD;
            assert_eq!(c.tracks[0].init_data, Some(base64::Engine::encode(engine, init)));
            assert_eq!(c.tracks[2].track_name, "timeline");
            assert_eq!(c.tracks[2].depends, Some(vec!["1".to_string(), "2".to_string()]));
            assert_eq!(c.tracks[2].mime_type.as_deref(), Some("text/csv"));
            assert_eq!(c.tracks[2].packaging, PackagingType::Timeline);
        }
        other => panic!("{other:?}"),
    }
}

#[test]
fn how_a_stream_is_cut_into_chunks_does_not_matter() {
    for size in [1, 3, 7, 64, 1000] {
        let mut p = Mp4StreamProcessor::new();
        let mut events = Vec::new();
        for chunk in stream().chunks(size) {
            let (more, end) = p.process_stream(&StreamInput::Data(chunk.to_vec()), 5);
            assert_eq!(end, None);
            events.extend(more);
        }
        assert_eq!(shown(&events), EXPECTED, "{size}");
    }
}

#[test]
fn long_box_sizes_are_read() {
    let mut p = Mp4StreamProcessor::new();
    p.process_stream(&StreamInput::Data(stream()), 0);
    let mut long = 1u32.to_be_bytes().to_vec();
    long.extend_from_slice(b"mdat");
    long.extend_from_slice(&20u64.to_be_bytes());
    long.extend_from_slice(b"data");
    let (events, end) = p.process_stream(&StreamInput::Data(long), 0);
    assert_eq!(end, None);
    assert_eq!(shown(&events), vec!["frame 1 2/2"]);
}

#[test]
fn ends_and_faults_of_a_stream() {
    let mut p = Mp4StreamProcessor::new();
    assert_eq!(p.process_stream(&StreamInput::Data(vec![]), 0).1, Some(StreamEnd::Done));
    assert_eq!(p.process_stream(&StreamInput::Failed, 0).1, Some(StreamEnd::Done));
    assert_eq!(p.process_stream(&StreamInput::TimedOut, 0).1, Some(StreamEnd::TimedOut));
    let end = |bytes: Vec<u8>| {
        Mp4StreamProcessor::new().process_stream(&StreamInput::Data(bytes), 0).1
    };
    let mut empty = 0u32.to_be_bytes().to_vec();
    empty.extend_from_slice(b"free");
    assert_eq!(end(empty), Some(StreamEnd::Malformed(BoxError::EmptyBox)));
    assert_eq!(end(boxed(b"prft", &[0; 8])), Some(StreamEnd::Malformed(BoxError::ShortBox)));
    let mut version1 = vec![1u8];
    version1.extend_from_slice(&[0; 19]);
    assert_eq!(end(boxed(b"prft", &version1)), Some(StreamEnd::Malformed(BoxError::ShortBox)));
    assert_eq!(end(boxed(b"moof", &[])), Some(StreamEnd::Malformed(BoxError::BadFragment)));
    let no_traf = boxed(b"moof", &boxed(b"mfhd", &words(&[0, 1])));
    assert_eq!(end(no_traf), Some(StreamEnd::Malformed(BoxError::NoTrackFragment)));
    // A box of size zero inside the fragment.
    assert_eq!(
        end(boxed(b"moof", &[0, 0, 0, 0, b't', b'r', b'a', b'f'])),
        Some(StreamEnd::Malformed(BoxError::BadFragment))
    );
}

#[test]
fn single_boxes_can_be_handed_in() {
    let mut p = Mp4StreamProcessor::new();
    let mut take = |kind: u32, data: Vec<u8>| p.process_box(kind, BytesMut::from(&data[..]), 9);
    assert_eq!(shown(&take(MOOV, moov()).unwrap()), vec!["catalog 3"]);
    assert!(take(MOOV, moov()).unwrap().is_empty());
    assert!(take(PRFT, prft(1, 2)).unwrap().is_empty());
    assert_eq!(shown(&take(MOOF, moof(1, true)).unwrap()), vec!["key 1 1/1", "time 1 1 2 1"]);
    assert_eq!(shown(&take(MDAT, boxed(b"mdat", b"x")).unwrap()), vec!["frame 1 1/1"]);
    assert!(take(MOOV, vec![0; 4]).unwrap().is_empty());
    assert_eq!(take(MOOF, vec![0; 4]).unwrap_err(), BoxError::ShortBox);
    assert_eq!(take(MOOF, vec![0; 9]).unwrap_err(), BoxError::BadFragment);
    assert_eq!(p.get_track_type(1), TrackType::Video);
    assert_eq!(p.get_track_type(2), TrackType::Audio);
    assert_eq!(p.get_track_type(3), TrackType::Other);
}

#[test]
fn frames_are_numbered_without_gaps_in_each_group_and_track() {
    let mut p = Mp4StreamProcessor::new();
    p.process_box(MOOV, BytesMut::from(&moov()[..]), 0).unwrap();
    let mut seen = Vec::new();
    for (track, key) in
        [(2, false), (1, true), (1, false), (2, true), (1, false), (2, false), (1, true), (2, false)]
    {
        p.process_box(MOOF, BytesMut::from(&moof(track, key)[..]), 0).unwrap();
        for _ in 0..2 {
            let events = p.process_box(MDAT, BytesMut::from(&b"x"[..]), 0).unwrap();
            seen.extend(shown(&events));
        }
        assert!(p.process_box(MOOF, BytesMut::new(), 0).is_err());
    }
    let expected = [
        "2 0/1", "2 0/2", "1 1/1", "1 1/2", "1 1/3", "1 1/4", "2 1/1", "2 1/2", "1 1/5", "1 1/6",
        "2 1/3", "2 1/4", "1 2/1", "1 2/2", "2 2/1", "2 2/2",
    ];
    assert_eq!(seen, expected.map(|e| format!("frame {e}")));
}

#[test]
fn boxes_are_read_by_the_library_that_knows_them() {
    assert_eq!(Mp4StreamProcessor::get_track_id_from_moof(&moof(7, false)), Ok(7));
    let p = Mp4StreamProcessor::new();
    assert!(p.parse_moof_for_keyframe(&moof(7, true)));
    assert!(!p.parse_moof_for_keyframe(&moof(7, false)));
    // A fragment that cannot be read is taken for a key frame at every 25th frame.
    assert!(p.parse_moof_for_keyframe(&[0; 8]));
    let mut later = Mp4StreamProcessor::new();
    later.process_box(MDAT, BytesMut::new(), 0).unwrap();
    assert!(!later.parse_moof_for_keyframe(&[0; 8]));
    let tracks = Mp4StreamProcessor::build_track_map_from_moov(&moov()).unwrap();
    assert_eq!(tracks.len(), 2);
    assert_eq!((tracks[0].track_id, tracks[0].track_type), (1, TrackType::Video));
    assert!(Mp4StreamProcessor::build_track_map_from_moov(&boxed(b"moov", &[1, 2])).is_none());
}

/// A movie with metadata in items behind its tracks. The list says that it has `list_size` bytes.
fn moov_with_items(list_size: u32, items: &[u8]) -> Vec<u8> {
    let mut meta = vec![0; 4];
    let mut hdlr = words(&[0, 0]);
    hdlr.extend_from_slice(b"mdir");
    hdlr.extend_from_slice(&[0; 13]);
    meta.extend(boxed(b"hdlr", &hdlr));
    meta.extend_from_slice(&list_size.to_be_bytes());
    meta.extend_from_slice(b"ilst");
    meta.extend_from_slice(items);
    let mut all = moov();
    all.extend(boxed(b"meta", &meta));
    let size = all.len() as u32;
    all[..4].copy_from_slice(&size.to_be_bytes());
    all
}

#[test]
fn a_list_of_items_may_be_larger_than_the_movie() {
    let tracks = |data: Vec<u8>| {
        Mp4StreamProcessor::build_track_map_from_moov(&data).map(|ts| ts.len())
    };
    let item = |size: u32| {
        let mut data = words(&[size]);
        data.extend_from_slice(b"data");
        data.extend(words(&[1, 0]));
        data.extend_from_slice(b"name");
        data
    };
    let named = boxed(&[0xa9, b'n', b'a', b'm'], &item(20));
    assert_eq!(tracks(moov_with_items(8 + named.len() as u32, &named)), Some(2));
    // An unknown box in the list reaches to the end that the list claims.
    let mut skipped = words(&[99_992]);
    skipped.extend_from_slice(b"free");
    assert_eq!(tracks(moov_with_items(100_000, &skipped)), Some(2));
    // Data that is larger than the movie is not there, and data that is too small is none.
    let mut large = words(&[90_000]);
    large.extend_from_slice(&[0xa9, b'n', b'a', b'm']);
    large.extend(item(80_000));
    assert_eq!(tracks(moov_with_items(100_000, &large)), None);
    let small = boxed(&[0xa9, b'n', b'a', b'm'], &item(15));
    assert_eq!(tracks(moov_with_items(8 + small.len() as u32, &small)), None);
}

fn movie_track(track_id: u32, handler: &[u8; 4]) -> MovieTrack {
    MovieTrack {
        track_id,
        handler: u32::from_be_bytes(*handler),
        avc1: None,
        hev1: false,
        vp09: false,
        mp4a: false,
        tx3g: false,
    }
}

#[test]
fn codecs_by_sample_description() {
    let mut t = movie_track(1, b"vide");
    assert_eq!(codec_text(&t), "unknown");
    t.tx3g = true;
    assert_eq!(codec_text(&t), "tx3g");
    t.mp4a = true;
    assert_eq!(codec_text(&t), "mp4a.40.2");
    t.vp09 = true;
    assert_eq!(codec_text(&t), "vp09");
    t.hev1 = true;
    assert_eq!(codec_text(&t), "hev1");
    t.avc1 = Some(AvcProfile { profile: 0x42, compatibility: 0xc0, level: 0xd });
    assert_eq!(codec_text(&t), "avc1.42C0D");
}

#[test]
fn of_two_tracks_with_one_id_the_later_counts() {
    let ts = build_track_map(&vec![
        movie_track(3, b"vide"),
        movie_track(1, b"soun"),
        movie_track(3, b"text"),
    ]);
    let shown: Vec<(u32, TrackType)> = ts.iter().map(|t| (t.track_id, t.track_type)).collect();
    assert_eq!(shown, vec![(3, TrackType::Other), (1, TrackType::Audio)]);
    let c = build_catalog(&ts, b"ab", 3);
    assert_eq!(c.tracks[0].init_data.as_deref(), Some("YWI="));
    assert_eq!((c.version, c.tracks.len()), (1, 3));
    assert_eq!(c.tracks[0].role, "other");
}

fn fragment(run: Option<SampleRun>, default_sample_flags: Option<u32>) -> TrackFragment {
    TrackFragment { track_id: 1, default_sample_flags, run }
}

#[test]
fn key_frames_are_found_by_their_flags() {
    let run = |n, first, flags: Vec<u32>| {
        Some(SampleRun { sample_count: n, first_sample_flags: first, sample_flags: flags })
    };
    let key = 0x0200_0000;
    let other = 0x0101_0000;
    assert!(!find_keyframe(&vec![]));
    assert!(find_keyframe(&vec![fragment(run(2, None, vec![other, key]), None)]));
    assert!(find_keyframe(&vec![fragment(run(2, Some(key), vec![other, other]), None)]));
    assert!(!find_keyframe(&vec![fragment(run(1, Some(other), vec![key]), None)]));
    assert!(find_keyframe(&vec![fragment(run(1, None, vec![]), Some(key))]));
    assert!(!find_keyframe(&vec![fragment(run(0, Some(key), vec![]), Some(key))]));
    // A sample that is no sync sample is no key frame.
    assert!(!find_keyframe(&vec![fragment(run(1, Some(0x0201_0000), vec![]), None)]));
    // What follows a fragment without a run is not looked at.
    assert!(!find_keyframe(&vec![
        fragment(None, None),
        fragment(run(1, Some(key), vec![]), None)
    ]));
}

#[test]
fn catalogs_hold_what_they_are_given() {
    let t = CatalogTrack::new(
        "v".to_string(),
        1,
        PackagingType::ChunkPerObject,
        true,
        "video".to_string(),
        "avc1".to_string(),
        640,
        480,
        1000,
        25,
        2,
        None,
        Some("video/mp4".to_string()),
        None,
    );
    let c = Catalog::new(vec![t], 44);
    assert_eq!((c.version, c.generated_at, c.tracks.len()), (1, 44, 1));
    assert_eq!((c.tracks[0].width, c.tracks[0].height, c.tracks[0].alt_group), (640, 480, 2));
    assert_eq!(PackagingType::ChunkPerObject.name(), "chunk-per-object");
    assert_eq!(PackagingType::Timeline.name(), "timeline");
}
