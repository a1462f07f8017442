use syljs::ast::NumberBits;
use syljs::dom::DomNodeRef;
use syljs::media::{
    play_type_for, BufferedRange, MediaElementKind, MediaEventRecord, MediaNetworkState,
    MediaReadyState, MediaSourceState, ResearchMediaHost, SourceBufferId, SourceBufferState,
};

type Host = ResearchMediaHost<u32>;

fn secs(x: f64) -> NumberBits {
    NumberBits(x.to_bits())
}

#[test]
fn media_host_can_create_element_without_dom() {
    let mut media = Host::default();
    let id = media.create_media_element(MediaElementKind::Video);
    let snapshot = media.element_snapshot(id).expect("snapshot");

    assert_eq!(snapshot.kind, MediaElementKind::Video);
    assert!(snapshot.paused);
}

#[test]
fn new_elements_have_kind_dependent_size() {
    let mut media = Host::new();
    let v = media.create_media_element(MediaElementKind::Video);
    let a = media.create_media_element(MediaElementKind::Audio);
    let vs = media.element_snapshot(v).unwrap();
    let as_ = media.element_snapshot(a).unwrap();
    assert_eq!((vs.video_width, vs.video_height), (640, 360));
    assert_eq!((as_.video_width, as_.video_height), (0, 0));
    assert_eq!(vs.volume, secs(1.0));
    assert_eq!(vs.current_time, secs(0.0));
    assert_eq!(vs.ready_state, MediaReadyState::HaveNothing);
    assert_eq!(vs.network_state, MediaNetworkState::Empty);
    assert_eq!(media.metrics().media_elements_created, 2);
}

#[test]
fn bind_dom_node_is_idempotent() {
    let mut media = Host::new();
    let first = media.bind_dom_node(MediaElementKind::Video, DomNodeRef(4));
    let second = media.bind_dom_node(MediaElementKind::Audio, DomNodeRef(4));
    assert_eq!(first, second);
    assert_eq!(media.element_for_dom_node(DomNodeRef(4)), Some(first));
    assert_eq!(media.element_for_dom_node(DomNodeRef(5)), None);
    assert_eq!(media.metrics().media_elements_created, 1);
}

#[test]
fn plain_src_play_pause_cycle() {
    let mut media = Host::new();
    let v = media.create_media_element(MediaElementKind::Video);
    media.set_src(v, "sample.mp4".to_owned());
    media.set_volume(v, secs(0.5));
    media.set_muted(v, true);
    let s = media.element_snapshot(v).unwrap();
    assert_eq!(s.src, "sample.mp4");
    assert_eq!(s.ready_state, MediaReadyState::HaveCurrentData);
    assert_eq!(s.network_state, MediaNetworkState::Loading);
    assert_eq!(s.buffered, vec![BufferedRange { start: secs(0.0), end: secs(60.0) }]);
    media.play(v);
    let s = media.element_snapshot(v).unwrap();
    assert!(!s.paused);
    assert_eq!(s.ready_state.code(), 2);
    assert_eq!(s.network_state, MediaNetworkState::Idle);
    assert_eq!(s.volume, secs(0.5));
    assert!(s.muted);
    media.pause(v);
    assert!(media.element_snapshot(v).unwrap().paused);
    let m = media.metrics();
    assert_eq!((m.src_assignments, m.play_calls, m.pause_calls), (1, 1, 1));
}

#[test]
fn load_depends_on_src() {
    let mut media = Host::new();
    let v = media.create_media_element(MediaElementKind::Audio);
    media.load(v);
    assert_eq!(media.element_snapshot(v).unwrap().ready_state, MediaReadyState::HaveNothing);
    media.set_src(v, "a.mp3".to_owned());
    media.load(v);
    assert_eq!(media.element_snapshot(v).unwrap().ready_state, MediaReadyState::HaveMetadata);
    assert_eq!(media.metrics().load_calls, 2);
}

#[test]
fn media_source_object_url_attach_and_append() {
    let mut media = Host::new();
    let video = media.create_media_element(MediaElementKind::Video);
    let source = media.create_media_source();
    let url = media.create_object_url(source);
    assert_eq!(url, "sylphos-media-source:1");
    media.set_src(video, url.clone());
    let s = media.element_snapshot(video).unwrap();
    assert_eq!(s.media_source, Some(source));
    assert_eq!(s.ready_state, MediaReadyState::HaveMetadata);
    let buffer = media.add_source_buffer(source, "video/mp4; codecs=\"avc1.42E01E\"".to_owned());
    media.append_buffer(buffer, 10, secs(0.25), secs(0.25));
    let src = media.media_source_snapshot(source).unwrap();
    assert_eq!(src.ready_state.as_str(), "open");
    assert_eq!(src.source_buffers.len(), 1);
    assert_eq!(src.duration, secs(0.25));
    let b = media.source_buffer_snapshot(buffer).unwrap();
    assert_eq!(b.buffered, vec![BufferedRange { start: secs(0.0), end: secs(0.25) }]);
    assert_eq!((b.bytes_appended, b.segments), (10, 1));
    assert_eq!(b.state, SourceBufferState::Idle);
    let s = media.element_snapshot(video).unwrap();
    assert_eq!(s.buffered.len(), 1);
    assert_eq!(s.ready_state.code(), 4);
    media.end_of_stream(source);
    assert_eq!(media.media_source_snapshot(source).unwrap().ready_state, MediaSourceState::Ended);
    let m = media.metrics();
    assert_eq!(m.media_sources_created, 1);
    assert_eq!(m.source_buffers_created, 1);
    assert_eq!(m.object_urls_created, 1);
    assert_eq!(m.media_source_attachments, 1);
    assert_eq!(m.buffer_appends, 1);
    assert_eq!(media.segments().len(), 1);
    assert_eq!(media.source_range_ends(source), vec![secs(0.25)]);
}

#[test]
fn second_segment_starts_at_previous_end() {
    let mut media = Host::new();
    let source = media.create_media_source();
    let buffer = media.add_source_buffer(source, "video/webm".to_owned());
    media.append_buffer(buffer, 2048, secs(2.0), secs(2.0));
    media.append_buffer(buffer, 1024, secs(3.0), secs(3.0));
    let segs = media.segments();
    assert_eq!(segs[1].start, secs(2.0));
    assert_eq!(segs[1].end, secs(3.0));
    assert_eq!(media.source_range_ends(source), vec![secs(2.0), secs(3.0)]);
}

#[test]
fn remove_keeps_flagged_ranges_and_revoke() {
    let mut media = Host::new();
    let source = media.create_media_source();
    let url = media.create_object_url(source);
    let buffer = media.add_source_buffer(source, "video/webm; codecs=\"vp9\"".to_owned());
    media.append_buffer(buffer, 10, secs(0.25), secs(0.25));
    assert_eq!(media.source_buffer_snapshot(buffer).unwrap().buffered.len(), 1);
    media.remove_buffer(buffer, &vec![false]);
    assert_eq!(media.source_buffer_snapshot(buffer).unwrap().buffered.len(), 0);
    assert!(media.revoke_object_url(&url));
    assert!(!media.revoke_object_url(&url));
    assert_eq!(media.media_source_for_object_url(&url), None);
    let m = media.metrics();
    assert_eq!((m.buffer_appends, m.buffer_removes, m.object_urls_revoked), (1, 1, 1));
    media.remove_buffer(SourceBufferId(99), &Vec::new());
    assert_eq!(media.metrics().buffer_removes, 2);
}

#[test]
fn abort_returns_buffer_to_idle() {
    let mut media = Host::new();
    let source = media.create_media_source();
    let buffer = media.add_source_buffer(source, "audio/mp4".to_owned());
    media.abort_buffer(buffer);
    assert_eq!(media.source_buffer_snapshot(buffer).unwrap().state, SourceBufferState::Idle);
}

#[test]
fn can_play_type_classifies_mime_types() {
    let mut media = Host::new();
    assert_eq!(media.can_play_type("video/mp4"), "probably");
    assert_eq!(media.can_play_type("application/octet-stream"), "");
    assert_eq!(media.can_play_type("VIDEO/OGG"), "maybe");
    assert_eq!(play_type_for("audio/webm; codecs=\"opus\""), "probably");
    assert_eq!(media.metrics().can_play_type_checks, 3);
}

#[test]
fn seeking_queues_time_update_and_counts() {
    let mut media = Host::new();
    let a = media.create_media_element(MediaElementKind::Audio);
    media.set_src(a, "track.mp4".to_owned());
    media.set_current_time(a, secs(12.5));
    assert_eq!(media.element_snapshot(a).unwrap().current_time, secs(12.5));
    assert_eq!(media.metrics().seeks, 1);
}

#[test]
fn listeners_are_kept_per_element_and_type() {
    let mut media = Host::new();
    let v = media.create_media_element(MediaElementKind::Video);
    media.add_event_listener(v, "play", 1);
    media.add_event_listener(v, "pause", 2);
    media.add_event_listener(v, "play", 3);
    assert_eq!(media.event_listeners(v, "play"), vec![1, 3]);
    assert!(media.event_listeners(v, "ended").is_empty());
    media.record_event(MediaEventRecord {
        element: Some(v),
        source: None,
        buffer: None,
        event_type: "play".to_owned(),
    });
    assert_eq!(media.events().len(), 1);
    assert_eq!(media.events()[0].event_type, "play");
    assert_eq!(media.metrics().events, 1);
}

#[test]
fn state_names_and_codes() {
    assert_eq!(MediaElementKind::Video.tag_name(), "video");
    assert_eq!(MediaElementKind::Audio.tag_name(), "audio");
    assert_eq!(MediaNetworkState::NoSource.code(), 3);
    assert_eq!(MediaReadyState::HaveFutureData.code(), 3);
    assert_eq!(MediaSourceState::Closed.as_str(), "closed");
}
