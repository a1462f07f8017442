//! Media element and Media Source Extensions host: media elements bound to
//! DOM nodes, media sources with their source buffers, object URLs,
//! listeners, event and segment records, and usage metrics.
//!
//! Times, volumes and buffered ranges are IEEE-754 doubles; the host keeps
//! them as bit patterns and never computes with them. Where a step needs
//! floating-point arithmetic (the end of an appended segment, a source's
//! duration, a clamped volume, which ranges a removal keeps) the caller
//! passes its result in.

use crate::ast::NumberBits;
use crate::dom::DomNodeRef;
use crate::event_loop::sat_inc;
use crate::keyed::{has_id, id_find, id_insert, id_map, ids_sorted, keys_sorted, table_get, table_insert, table_map, table_remove};
use crate::text::{append_str, contains, decimal, decimal_string, lower, owned, str_contains, str_eq, to_lower};
use vstd::prelude::*;

verus! {

broadcast use vstd::string::group_string_axioms;

/// Stable media element id.
#[derive(Debug, Clone, Copy, PartialEq, Eq, PartialOrd, Ord, Hash, Structural)]
pub struct MediaElementId(pub u64);

/// Stable media source id.
#[derive(Debug, Clone, Copy, PartialEq, Eq, PartialOrd, Ord, Hash, Structural)]
pub struct MediaSourceId(pub u64);

/// Stable source buffer id.
#[derive(Debug, Clone, Copy, PartialEq, Eq, PartialOrd, Ord, Hash, Structural)]
pub struct SourceBufferId(pub u64);

/// Media element kind.
#[derive(Debug, Clone, Copy, PartialEq, Eq, Structural)]
pub enum MediaElementKind {
    /// `<video>`.
    Video,
    /// `<audio>`.
    Audio,
}

impl MediaElementKind {
    /// The element's tag name.
    pub fn tag_name(self) -> (s: &'static str)
        ensures
            s@ == (match self {
                MediaElementKind::Video => "video"@,
                MediaElementKind::Audio => "audio"@,
            }),
    {
        match self {
            MediaElementKind::Video => "video",
            MediaElementKind::Audio => "audio",
        }
    }
}

/// `HTMLMediaElement.readyState`.
#[derive(Debug, Clone, Copy, PartialEq, Eq, Structural)]
pub enum MediaReadyState {
    /// `HAVE_NOTHING`.
    HaveNothing,
    /// `HAVE_METADATA`.
    HaveMetadata,
    /// `HAVE_CURRENT_DATA`.
    HaveCurrentData,
    /// `HAVE_FUTURE_DATA`.
    HaveFutureData,
    /// `HAVE_ENOUGH_DATA`.
    HaveEnoughData,
}

impl MediaReadyState {
    /// The numeric value scripts see (0 to 4).
    pub fn code(self) -> (c: u8)
        ensures
            c == (match self {
                MediaReadyState::HaveNothing => 0u8,
                MediaReadyState::HaveMetadata => 1u8,
                MediaReadyState::HaveCurrentData => 2u8,
                MediaReadyState::HaveFutureData => 3u8,
                MediaReadyState::HaveEnoughData => 4u8,
            }),
    {
        match self {
            MediaReadyState::HaveNothing => 0,
            MediaReadyState::HaveMetadata => 1,
            MediaReadyState::HaveCurrentData => 2,
            MediaReadyState::HaveFutureData => 3,
            MediaReadyState::HaveEnoughData => 4,
        }
    }
}

/// `HTMLMediaElement.networkState`.
#[derive(Debug, Clone, Copy, PartialEq, Eq, Structural)]
pub enum MediaNetworkState {
    /// `NETWORK_EMPTY`.
    Empty,
    /// `NETWORK_IDLE`.
    Idle,
    /// `NETWORK_LOADING`.
    Loading,
    /// `NETWORK_NO_SOURCE`.
    NoSource,
}

impl MediaNetworkState {
    /// The numeric value scripts see (0 to 3).
    pub fn code(self) -> (c: u8)
        ensures
            c == (match self {
                MediaNetworkState::Empty => 0u8,
                MediaNetworkState::Idle => 1u8,
                MediaNetworkState::Loading => 2u8,
                MediaNetworkState::NoSource => 3u8,
            }),
    {
        match self {
            MediaNetworkState::Empty => 0,
            MediaNetworkState::Idle => 1,
            MediaNetworkState::Loading => 2,
            MediaNetworkState::NoSource => 3,
        }
    }
}

/// `MediaSource.readyState`.
#[derive(Debug, Clone, Copy, PartialEq, Eq, Structural)]
pub enum MediaSourceState {
    /// `closed`.
    Closed,
    /// `open`.
    Open,
    /// `ended`.
    Ended,
}

impl MediaSourceState {
    /// The state's name as scripts see it.
    pub fn as_str(self) -> (s: &'static str)
        ensures
            s@ == (match self {
                MediaSourceState::Closed => "closed"@,
                MediaSourceState::Open => "open"@,
                MediaSourceState::Ended => "ended"@,
            }),
    {
        match self {
            MediaSourceState::Closed => "closed",
            MediaSourceState::Open => "open",
            MediaSourceState::Ended => "ended",
        }
    }
}

/// Source buffer state.
#[derive(Debug, Clone, Copy, PartialEq, Eq, Structural)]
pub enum SourceBufferState {
    /// Idle.
    Idle,
    /// Updating.
    Updating,
    /// Removed.
    Removed,
}

/// A buffered time range, in seconds (IEEE-754 bits).
#[derive(Debug, Clone, Copy, PartialEq, Eq, Structural)]
pub struct BufferedRange {
    /// Range start.
    pub start: NumberBits,
    /// Range end.
    pub end: NumberBits,
}

/// The bits of `0.0`.
pub open spec fn zero_seconds() -> NumberBits {
    NumberBits(0)
}

/// The bits of `1.0`.
pub open spec fn unit_volume() -> NumberBits {
    NumberBits(0x3ff0_0000_0000_0000)
}

/// The bits of `60.0`: the length of a plain (non-MSE) source.
pub open spec fn plain_source_end() -> NumberBits {
    NumberBits(0x404e_0000_0000_0000)
}

/// Media element snapshot. The element's duration is not kept: it is always
/// the largest end among `buffered` (zero when there is none).
#[derive(Debug, Clone, PartialEq, Eq)]
pub struct MediaElementSnapshot {
    /// Element id.
    pub id: MediaElementId,
    /// Element kind.
    pub kind: MediaElementKind,
    /// Optional DOM node.
    pub dom_node: Option<DomNodeRef>,
    /// Current `src`.
    pub src: String,
    /// Attached media source.
    pub media_source: Option<MediaSourceId>,
    /// Current playback time.
    pub current_time: NumberBits,
    /// Paused flag.
    pub paused: bool,
    /// Muted flag.
    pub muted: bool,
    /// Volume in `[0, 1]`.
    pub volume: NumberBits,
    /// Ready state.
    pub ready_state: MediaReadyState,
    /// Network state.
    pub network_state: MediaNetworkState,
    /// Buffered ranges.
    pub buffered: Vec<BufferedRange>,
    /// Intrinsic video width.
    pub video_width: u32,
    /// Intrinsic video height.
    pub video_height: u32,
}

/// Model of a media element.
pub struct ElementView {
    pub id: MediaElementId,
    pub kind: MediaElementKind,
    pub dom_node: Option<DomNodeRef>,
    pub src: Seq<char>,
    pub media_source: Option<MediaSourceId>,
    pub current_time: NumberBits,
    pub paused: bool,
    pub muted: bool,
    pub volume: NumberBits,
    pub ready_state: MediaReadyState,
    pub network_state: MediaNetworkState,
    pub buffered: Seq<BufferedRange>,
    pub video_width: u32,
    pub video_height: u32,
}

impl View for MediaElementSnapshot {
    type V = ElementView;

    open spec fn view(&self) -> ElementView {
        ElementView {
            id: self.id,
            kind: self.kind,
            dom_node: self.dom_node,
            src: self.src@,
            media_source: self.media_source,
            current_time: self.current_time,
            paused: self.paused,
            muted: self.muted,
            volume: self.volume,
            ready_state: self.ready_state,
            network_state: self.network_state,
            buffered: self.buffered@,
            video_width: self.video_width,
            video_height: self.video_height,
        }
    }
}

fn copy_ranges(v: &Vec<BufferedRange>) -> (r: Vec<BufferedRange>)
    ensures
        r@ == v@,
{
    let mut r: Vec<BufferedRange> = Vec::new();
    let mut i: usize = 0;
    while i < v.len()
        invariant
            i <= v@.len(),
            r@ == v@.take(i as int),
        decreases v.len() - i,
    {
        r.push(v[i]);
        i = i + 1;
        assert(r@ =~= v@.take(i as int));
    }
    assert(v@.take(v.len() as int) =~= v@);
    r
}

fn copy_element(e: &MediaElementSnapshot) -> (r: MediaElementSnapshot)
    ensures
        r@ == e@,
{
    MediaElementSnapshot {
        id: e.id,
        kind: e.kind,
        dom_node: e.dom_node,
        src: e.src.clone(),
        media_source: e.media_source,
        current_time: e.current_time,
        paused: e.paused,
        muted: e.muted,
        volume: e.volume,
        ready_state: e.ready_state,
        network_state: e.network_state,
        buffered: copy_ranges(&e.buffered),
        video_width: e.video_width,
        video_height: e.video_height,
    }
}

/// Media source snapshot.
#[derive(Debug, Clone, PartialEq, Eq)]
pub struct MediaSourceSnapshot {
    /// Source id.
    pub id: MediaSourceId,
    /// Ready state.
    pub ready_state: MediaSourceState,
    /// Duration when the last segment was appended.
    pub duration: NumberBits,
    /// Source buffers.
    pub source_buffers: Vec<SourceBufferId>,
}

/// Model of a media source.
pub struct SourceView {
    pub id: MediaSourceId,
    pub ready_state: MediaSourceState,
    pub duration: NumberBits,
    pub source_buffers: Seq<SourceBufferId>,
}

impl View for MediaSourceSnapshot {
    type V = SourceView;

    open spec fn view(&self) -> SourceView {
        SourceView {
            id: self.id,
            ready_state: self.ready_state,
            duration: self.duration,
            source_buffers: self.source_buffers@,
        }
    }
}

fn copy_buffer_ids(v: &Vec<SourceBufferId>) -> (r: Vec<SourceBufferId>)
    ensures
        r@ == v@,
{
    let mut r: Vec<SourceBufferId> = Vec::new();
    let mut i: usize = 0;
    while i < v.len()
        invariant
            i <= v@.len(),
            r@ == v@.take(i as int),
        decreases v.len() - i,
    {
        r.push(v[i]);
        i = i + 1;
        assert(r@ =~= v@.take(i as int));
    }
    assert(v@.take(v.len() as int) =~= v@);
    r
}

fn copy_source(s: &MediaSourceSnapshot) -> (r: MediaSourceSnapshot)
    ensures
        r@ == s@,
{
    MediaSourceSnapshot {
        id: s.id,
        ready_state: s.ready_state,
        duration: s.duration,
        source_buffers: copy_buffer_ids(&s.source_buffers),
    }
}

/// Source buffer snapshot.
#[derive(Debug, Clone, PartialEq, Eq)]
pub struct SourceBufferSnapshot {
    /// Buffer id.
    pub id: SourceBufferId,
    /// Owning source.
    pub source: MediaSourceId,
    /// MIME type.
    pub mime_type: String,
    /// State.
    pub state: SourceBufferState,
    /// Buffered ranges.
    pub buffered: Vec<BufferedRange>,
    /// Total appended bytes.
    pub bytes_appended: usize,
    /// Segment count.
    pub segments: usize,
    /// Timestamp offset.
    pub timestamp_offset: NumberBits,
}

/// Model of a source buffer.
pub struct BufferView {
    pub id: SourceBufferId,
    pub source: MediaSourceId,
    pub mime_type: Seq<char>,
    pub state: SourceBufferState,
    pub buffered: Seq<BufferedRange>,
    pub bytes_appended: usize,
    pub segments: usize,
    pub timestamp_offset: NumberBits,
}

impl View for SourceBufferSnapshot {
    type V = BufferView;

    open spec fn view(&self) -> BufferView {
        BufferView {
            id: self.id,
            source: self.source,
            mime_type: self.mime_type@,
            state: self.state,
            buffered: self.buffered@,
            bytes_appended: self.bytes_appended,
            segments: self.segments,
            timestamp_offset: self.timestamp_offset,
        }
    }
}

fn copy_buffer(b: &SourceBufferSnapshot) -> (r: SourceBufferSnapshot)
    ensures
        r@ == b@,
{
    SourceBufferSnapshot {
        id: b.id,
        source: b.source,
        mime_type: b.mime_type.clone(),
        state: b.state,
        buffered: copy_ranges(&b.buffered),
        bytes_appended: b.bytes_appended,
        segments: b.segments,
        timestamp_offset: b.timestamp_offset,
    }
}

/// Media event record.
#[derive(Debug, Clone, PartialEq, Eq)]
pub struct MediaEventRecord {
    /// Element.
    pub element: Option<MediaElementId>,
    /// Media source.
    pub source: Option<MediaSourceId>,
    /// Source buffer.
    pub buffer: Option<SourceBufferId>,
    /// Event type.
    pub event_type: String,
}

/// Model of an event record.
pub struct EventView {
    pub element: Option<MediaElementId>,
    pub source: Option<MediaSourceId>,
    pub buffer: Option<SourceBufferId>,
    pub event_type: Seq<char>,
}

impl View for MediaEventRecord {
    type V = EventView;

    open spec fn view(&self) -> EventView {
        EventView { element: self.element, source: self.source, buffer: self.buffer, event_type: self.event_type@ }
    }
}

/// Appended segment record.
#[derive(Debug, Clone, Copy, PartialEq, Eq, Structural)]
pub struct MediaSegmentRecord {
    /// Buffer.
    pub buffer: SourceBufferId,
    /// Bytes.
    pub bytes: usize,
    /// Segment start.
    pub start: NumberBits,
    /// Segment end.
    pub end: NumberBits,
}

/// Time update record.
#[derive(Debug, Clone, Copy, PartialEq, Eq, Structural)]
pub struct MediaTimeUpdate {
    /// Element.
    pub element: MediaElementId,
    /// New current time.
    pub current_time: NumberBits,
}

/// Media metrics.
#[derive(Debug, Clone, Copy, PartialEq, Eq, Structural)]
pub struct MediaMetrics {
    /// Media elements created.
    pub media_elements_created: u64,
    /// Media sources created.
    pub media_sources_created: u64,
    /// Source buffers created.
    pub source_buffers_created: u64,
    /// `src` assignments.
    pub src_assignments: u64,
    /// Object URLs created.
    pub object_urls_created: u64,
    /// Object URLs revoked.
    pub object_urls_revoked: u64,
    /// `play()` calls.
    pub play_calls: u64,
    /// `pause()` calls.
    pub pause_calls: u64,
    /// `load()` calls.
    pub load_calls: u64,
    /// Seeks.
    pub seeks: u64,
    /// `canPlayType` checks.
    pub can_play_type_checks: u64,
    /// Media source attachments.
    pub media_source_attachments: u64,
    /// Buffer appends.
    pub buffer_appends: u64,
    /// Buffer removes.
    pub buffer_removes: u64,
    /// Events recorded.
    pub events: u64,
}

/// All counters at zero.
pub open spec fn zero_media_metrics() -> MediaMetrics {
    MediaMetrics {
        media_elements_created: 0,
        media_sources_created: 0,
        source_buffers_created: 0,
        src_assignments: 0,
        object_urls_created: 0,
        object_urls_revoked: 0,
        play_calls: 0,
        pause_calls: 0,
        load_calls: 0,
        seeks: 0,
        can_play_type_checks: 0,
        media_source_attachments: 0,
        buffer_appends: 0,
        buffer_removes: 0,
        events: 0,
    }
}

impl Default for MediaMetrics {
    fn default() -> (m: Self)
        ensures
            m == zero_media_metrics(),
    {
        MediaMetrics {
            media_elements_created: 0,
            media_sources_created: 0,
            source_buffers_created: 0,
            src_assignments: 0,
            object_urls_created: 0,
            object_urls_revoked: 0,
            play_calls: 0,
            pause_calls: 0,
            load_calls: 0,
            seeks: 0,
            can_play_type_checks: 0,
            media_source_attachments: 0,
            buffer_appends: 0,
            buffer_removes: 0,
            events: 0,
        }
    }
}

/// What `canPlayType` answers for a MIME type (compared in ASCII lower case).
pub open spec fn play_type_answer(mime: Seq<char>) -> Seq<char> {
    let m = lower(mime);
    if contains(m, "video/mp4"@) || contains(m, "audio/mp4"@) || contains(m, "video/webm"@) || contains(
        m,
        "audio/webm"@,
    ) || contains(m, "avc1"@) || contains(m, "mp4a"@) || contains(m, "vp9"@) || contains(m, "opus"@) {
        "probably"@
    } else if contains(m, "video/"@) || contains(m, "audio/"@) {
        "maybe"@
    } else {
        Seq::empty()
    }
}

/// `canPlayType` answers `probably` for every MIME type whose lower-cased text
/// names a supported container (`video/mp4`, `audio/mp4`, `video/webm`,
/// `audio/webm`) or codec (`avc1`, `mp4a`, `vp9`, `opus`); any other audio or
/// video type gets `maybe`, and the answer is always one of `probably`,
/// `maybe` and the empty string.
pub proof fn lemma_play_type_probably(mime: Seq<char>)
    ensures
        contains(lower(mime), "video/mp4"@) ==> play_type_answer(mime) == "probably"@,
        contains(lower(mime), "audio/mp4"@) ==> play_type_answer(mime) == "probably"@,
        contains(lower(mime), "video/webm"@) ==> play_type_answer(mime) == "probably"@,
        contains(lower(mime), "audio/webm"@) ==> play_type_answer(mime) == "probably"@,
        contains(lower(mime), "avc1"@) ==> play_type_answer(mime) == "probably"@,
        contains(lower(mime), "mp4a"@) ==> play_type_answer(mime) == "probably"@,
        contains(lower(mime), "vp9"@) ==> play_type_answer(mime) == "probably"@,
        contains(lower(mime), "opus"@) ==> play_type_answer(mime) == "probably"@,
        contains(lower(mime), "video/"@) || contains(lower(mime), "audio/"@) ==> play_type_answer(mime)
            == "probably"@ || play_type_answer(mime) == "maybe"@,
        play_type_answer(mime) == "probably"@ || play_type_answer(mime) == "maybe"@
            || play_type_answer(mime).len() == 0,
{
}

/// Classifies a MIME type: `probably` for the supported containers and
/// codecs, `maybe` for any other audio or video type, empty otherwise.
pub fn play_type_for(mime: &str) -> (r: String)
    ensures
        r@ == play_type_answer(mime@),
{
    let m = to_lower(mime);
    let s = m.as_str();
    if str_contains(s, "video/mp4") || str_contains(s, "audio/mp4") || str_contains(s, "video/webm") || str_contains(
        s,
        "audio/webm",
    ) || str_contains(s, "avc1") || str_contains(s, "mp4a") || str_contains(s, "vp9") || str_contains(s, "opus") {
        owned("probably")
    } else if str_contains(s, "video/") || str_contains(s, "audio/") {
        owned("maybe")
    } else {
        String::new()
    }
}

/// The object URL of a media source.
pub open spec fn object_url(source: MediaSourceId) -> Seq<char> {
    "sylphos-media-source:"@ + decimal(source.0 as nat)
}

fn object_url_for(source: MediaSourceId) -> (r: String)
    ensures
        r@ == object_url(source),
{
    let mut r = owned("sylphos-media-source:");
    let n = decimal_string(source.0);
    append_str(&mut r, n.as_str());
    r
}

/// Models of table entries, ids kept.
pub open spec fn entry_views<V: View>(s: Seq<(u64, V)>) -> Seq<(u64, V::V)> {
    s.map_values(|e: (u64, V)| (e.0, e.1@))
}

proof fn lemma_entry_views<V: View>(s: Seq<(u64, V)>)
    requires
        ids_sorted(s),
    ensures
        ids_sorted(entry_views(s)),
        id_map(entry_views(s)) == id_map(s).map_values(|v: V| v@),
{
    let e = entry_views(s);
    assert(ids_sorted(e)) by {
        assert forall|a: int, b: int| 0 <= a < b < e.len() implies #[trigger] e[a].0 < #[trigger] e[b].0 by {
            assert(s[a].0 < s[b].0);
        }
    }
    let m = id_map(s).map_values(|v: V| v@);
    assert forall|k: u64| #[trigger] id_map(e).dom().contains(k) <==> m.dom().contains(k) by {
        if has_id(e, k) {
            let i = choose|i: int| 0 <= i < e.len() && #[trigger] e[i].0 == k;
            assert(s[i].0 == k);
        }
        if has_id(s, k) {
            let i = choose|i: int| 0 <= i < s.len() && #[trigger] s[i].0 == k;
            assert(e[i].0 == k);
        }
    }
    assert forall|k: u64| #[trigger] id_map(e).dom().contains(k) implies id_map(e)[k] == m[k] by {
        let i = choose|i: int| 0 <= i < e.len() && #[trigger] e[i].0 == k;
        crate::keyed::lemma_id_entry(e, i);
        assert(s[i].0 == k);
        crate::keyed::lemma_id_entry(s, i);
    }
    assert(id_map(e) =~= m);
}

/// A table rewritten entry by entry, ids kept, maps each id to the rewritten value.
proof fn lemma_pointwise<V: View>(x0: Seq<(u64, V)>, x1: Seq<(u64, V)>, f: spec_fn(V::V) -> V::V)
    requires
        ids_sorted(x0),
        x1.len() == x0.len(),
        forall|j: int| 0 <= j < x0.len() ==> (#[trigger] x1[j]).0 == x0[j].0 && x1[j].1@ == f(x0[j].1@),
    ensures
        ids_sorted(x1),
        id_map(x1).map_values(|v: V| v@) == id_map(x0).map_values(|v: V| v@).map_values(f),
{
    assert(ids_sorted(x1)) by {
        assert forall|a: int, b: int| 0 <= a < b < x1.len() implies #[trigger] x1[a].0 < #[trigger] x1[b].0 by {
            assert(x1[a].0 == x0[a].0);
            assert(x1[b].0 == x0[b].0);
        }
    }
    let m0 = id_map(x0).map_values(|v: V| v@).map_values(f);
    let m1 = id_map(x1).map_values(|v: V| v@);
    assert forall|k: u64| #[trigger] m1.dom().contains(k) <==> m0.dom().contains(k) by {
        if has_id(x1, k) {
            let i = choose|i: int| 0 <= i < x1.len() && #[trigger] x1[i].0 == k;
            assert(x0[i].0 == k);
        }
        if has_id(x0, k) {
            let i = choose|i: int| 0 <= i < x0.len() && #[trigger] x0[i].0 == k;
            assert(x1[i].0 == k);
        }
    }
    assert forall|k: u64| #[trigger] m1.dom().contains(k) implies m1[k] == m0[k] by {
        let i = choose|i: int| 0 <= i < x1.len() && #[trigger] x1[i].0 == k;
        crate::keyed::lemma_id_entry(x1, i);
        assert(x0[i].0 == k);
        crate::keyed::lemma_id_entry(x0, i);
    }
    assert(m1 =~= m0);
}

struct MediaListener<C> {
    element: u64,
    event_type: String,
    callback: C,
}

/// Model of the media host.
pub struct MediaView<C> {
    /// Next element id.
    pub next_element: u64,
    /// Next source id.
    pub next_source: u64,
    /// Next buffer id.
    pub next_buffer: u64,
    /// Elements by id.
    pub elements: Map<u64, ElementView>,
    /// Element bound to each DOM node, by node id.
    pub bindings: Map<u64, MediaElementId>,
    /// Media sources by id.
    pub sources: Map<u64, SourceView>,
    /// Source buffers in increasing id order.
    pub buffers: Seq<(u64, BufferView)>,
    /// Media source of each live object URL.
    pub object_urls: Map<Seq<char>, MediaSourceId>,
    /// Listeners: element id, event type, callback, in registration order.
    pub listeners: Seq<(u64, Seq<char>, C)>,
    /// Recorded events.
    pub events: Seq<EventView>,
    /// Appended segments.
    pub segments: Seq<MediaSegmentRecord>,
    /// Time updates.
    pub time_updates: Seq<MediaTimeUpdate>,
    /// Counters.
    pub metrics: MediaMetrics,
}

/// Deterministic media host, generic over the listener callbacks it keeps.
pub struct ResearchMediaHost<C> {
    next_element: u64,
    next_source: u64,
    next_buffer: u64,
    elements: Vec<(u64, MediaElementSnapshot)>,
    dom_bindings: Vec<(u64, MediaElementId)>,
    sources: Vec<(u64, MediaSourceSnapshot)>,
    buffers: Vec<(u64, SourceBufferSnapshot)>,
    object_urls: Vec<(String, MediaSourceId)>,
    listeners: Vec<MediaListener<C>>,
    events: Vec<MediaEventRecord>,
    segments: Vec<MediaSegmentRecord>,
    time_updates: Vec<MediaTimeUpdate>,
    metrics: MediaMetrics,
}

/// Models of the listeners.
spec fn listener_views<C>(s: Seq<MediaListener<C>>) -> Seq<(u64, Seq<char>, C)> {
    s.map_values(|l: MediaListener<C>| (l.element, l.event_type@, l.callback))
}

/// Models of the event records.
pub open spec fn event_views(s: Seq<MediaEventRecord>) -> Seq<EventView> {
    s.map_values(|e: MediaEventRecord| e@)
}

impl<C> View for ResearchMediaHost<C> {
    type V = MediaView<C>;

    closed spec fn view(&self) -> MediaView<C> {
        MediaView {
            next_element: self.next_element,
            next_source: self.next_source,
            next_buffer: self.next_buffer,
            elements: id_map(self.elements@).map_values(|e: MediaElementSnapshot| e@),
            bindings: id_map(self.dom_bindings@),
            sources: id_map(self.sources@).map_values(|s: MediaSourceSnapshot| s@),
            buffers: entry_views(self.buffers@),
            object_urls: table_map(self.object_urls@),
            listeners: listener_views(self.listeners@),
            events: event_views(self.events@),
            segments: self.segments@,
            time_updates: self.time_updates@,
            metrics: self.metrics,
        }
    }
}

/// The buffers as a map from id.
pub open spec fn buffer_map<C>(v: MediaView<C>) -> Map<u64, BufferView> {
    id_map(v.buffers)
}

/// A new element of `kind`.
pub open spec fn fresh_element(id: MediaElementId, kind: MediaElementKind, dom_node: Option<DomNodeRef>) -> ElementView {
    ElementView {
        id,
        kind,
        dom_node,
        src: Seq::empty(),
        media_source: None,
        current_time: zero_seconds(),
        paused: true,
        muted: false,
        volume: unit_volume(),
        ready_state: MediaReadyState::HaveNothing,
        network_state: MediaNetworkState::Empty,
        buffered: Seq::empty(),
        video_width: if kind == MediaElementKind::Video {
            640
        } else {
            0
        },
        video_height: if kind == MediaElementKind::Video {
            360
        } else {
            0
        },
    }
}

/// The host after allocating an element.
pub open spec fn with_element<C>(v: MediaView<C>, kind: MediaElementKind, dom_node: Option<DomNodeRef>) -> MediaView<C> {
    let id = MediaElementId(v.next_element);
    MediaView {
        next_element: sat_inc(v.next_element),
        elements: v.elements.insert(v.next_element, fresh_element(id, kind, dom_node)),
        bindings: match dom_node {
            Some(n) => v.bindings.insert(n.0, id),
            None => v.bindings,
        },
        metrics: MediaMetrics { media_elements_created: sat_inc(v.metrics.media_elements_created), ..v.metrics },
        ..v
    }
}

/// The host with element `k` rewritten by `f`, when it exists.
pub open spec fn edit_element<C>(v: MediaView<C>, k: u64, f: spec_fn(ElementView) -> ElementView) -> MediaView<C> {
    if v.elements.dom().contains(k) {
        MediaView { elements: v.elements.insert(k, f(v.elements[k])), ..v }
    } else {
        v
    }
}

impl<C> ResearchMediaHost<C> {
    #[verifier::type_invariant]
    spec fn wf(self) -> bool {
        &&& ids_sorted(self.elements@)
        &&& ids_sorted(self.dom_bindings@)
        &&& ids_sorted(self.sources@)
        &&& ids_sorted(self.buffers@)
        &&& keys_sorted(self.object_urls@)
    }

    /// A host with nothing in it; ids start at 1.
    pub fn new() -> (h: Self)
        ensures
            h@.next_element == 1,
            h@.next_source == 1,
            h@.next_buffer == 1,
            h@.elements == Map::<u64, ElementView>::empty(),
            h@.bindings == Map::<u64, MediaElementId>::empty(),
            h@.sources == Map::<u64, SourceView>::empty(),
            h@.buffers == Seq::<(u64, BufferView)>::empty(),
            h@.object_urls == Map::<Seq<char>, MediaSourceId>::empty(),
            h@.listeners == Seq::<(u64, Seq<char>, C)>::empty(),
            h@.events == Seq::<EventView>::empty(),
            h@.segments == Seq::<MediaSegmentRecord>::empty(),
            h@.time_updates == Seq::<MediaTimeUpdate>::empty(),
            h@.metrics == zero_media_metrics(),
    {
        let h = ResearchMediaHost {
            next_element: 1,
            next_source: 1,
            next_buffer: 1,
            elements: Vec::new(),
            dom_bindings: Vec::new(),
            sources: Vec::new(),
            buffers: Vec::new(),
            object_urls: Vec::new(),
            listeners: Vec::new(),
            events: Vec::new(),
            segments: Vec::new(),
            time_updates: Vec::new(),
            metrics: MediaMetrics::default(),
        };
        proof {
            crate::keyed::lemma_id_empty(h.elements@);
            crate::keyed::lemma_id_empty(h.dom_bindings@);
            crate::keyed::lemma_id_empty(h.sources@);
            crate::keyed::lemma_id_empty(h.buffers@);
            crate::keyed::lemma_table_empty(h.object_urls@);
            assert(h@.elements =~= Map::<u64, ElementView>::empty());
            assert(h@.sources =~= Map::<u64, SourceView>::empty());
            assert(h@.buffers =~= Seq::<(u64, BufferView)>::empty());
            assert(h@.listeners =~= Seq::<(u64, Seq<char>, C)>::empty());
            assert(h@.events =~= Seq::<EventView>::empty());
        }
        h
    }

    /// Puts element `k`.
    fn store_element(&mut self, k: u64, e: MediaElementSnapshot)
        ensures
            final(self)@ == (MediaView { elements: old(self)@.elements.insert(k, e@), ..old(self)@ }),
    {
        proof {
            use_type_invariant(&*self);
        }
        let ghost ev = e@;
        let mut elements: Vec<(u64, MediaElementSnapshot)> = Vec::new();
        std::mem::swap(&mut elements, &mut self.elements);
        id_insert(&mut elements, k, e);
        self.elements = elements;
        assert(self@.elements =~= old(self)@.elements.insert(k, ev));
    }

    /// A copy of element `k`.
    fn element_copy(&self, k: u64) -> (r: Option<MediaElementSnapshot>)
        ensures
            match r {
                Some(e) => self@.elements.dom().contains(k) && e@ == self@.elements[k],
                None => !self@.elements.dom().contains(k),
            },
    {
        proof {
            use_type_invariant(self);
        }
        match id_find(&self.elements, k) {
            Ok(i) => {
                proof {
                    crate::keyed::lemma_id_entry(self.elements@, i as int);
                }
                Some(copy_element(&self.elements[i].1))
            },
            Err(_) => None,
        }
    }

    fn alloc_element(&mut self, kind: MediaElementKind, dom_node: Option<DomNodeRef>) -> (id: MediaElementId)
        ensures
            id == MediaElementId(old(self)@.next_element),
            final(self)@ == with_element(old(self)@, kind, dom_node),
    {
        proof {
            use_type_invariant(&*self);
        }
        let id = MediaElementId(self.next_element);
        let video = match kind {
            MediaElementKind::Video => true,
            MediaElementKind::Audio => false,
        };
        let e = MediaElementSnapshot {
            id,
            kind,
            dom_node,
            src: String::new(),
            media_source: None,
            current_time: NumberBits(0),
            paused: true,
            muted: false,
            volume: NumberBits(0x3ff0_0000_0000_0000),
            ready_state: MediaReadyState::HaveNothing,
            network_state: MediaNetworkState::Empty,
            buffered: Vec::new(),
            video_width: if video {
                640
            } else {
                0
            },
            video_height: if video {
                360
            } else {
                0
            },
        };
        assert(e@.buffered =~= Seq::<BufferedRange>::empty());
        assert(e@.src =~= Seq::<char>::empty());
        self.store_element(id.0, e);
        proof {
            use_type_invariant(&*self);
        }
        match dom_node {
            Some(node) => {
                let mut bindings: Vec<(u64, MediaElementId)> = Vec::new();
                std::mem::swap(&mut bindings, &mut self.dom_bindings);
                id_insert(&mut bindings, node.0, id);
                self.dom_bindings = bindings;
            },
            None => {},
        }
        self.next_element = self.next_element.saturating_add(1);
        self.metrics.media_elements_created = self.metrics.media_elements_created.saturating_add(1);
        id
    }

    /// Creates a media element of `kind`.
    pub fn create_media_element(&mut self, kind: MediaElementKind) -> (id: MediaElementId)
        ensures
            id == MediaElementId(old(self)@.next_element),
            final(self)@ == with_element(old(self)@, kind, None),
    {
        self.alloc_element(kind, None)
    }

    /// The element bound to `node`, creating and binding one of `kind` when there is none.
    pub fn bind_dom_node(&mut self, kind: MediaElementKind, node: DomNodeRef) -> (id: MediaElementId)
        ensures
            old(self)@.bindings.dom().contains(node.0) ==> id == old(self)@.bindings[node.0] && final(self)@ == old(self)@,
            !old(self)@.bindings.dom().contains(node.0) ==> id == MediaElementId(old(self)@.next_element)
                && final(self)@ == with_element(old(self)@, kind, Some(node)),
    {
        proof {
            use_type_invariant(&*self);
        }
        match id_find(&self.dom_bindings, node.0) {
            Ok(i) => {
                proof {
                    crate::keyed::lemma_id_entry(self.dom_bindings@, i as int);
                }
                self.dom_bindings[i].1
            },
            Err(_) => self.alloc_element(kind, Some(node)),
        }
    }

    /// The element bound to `node`.
    pub fn element_for_dom_node(&self, node: DomNodeRef) -> (r: Option<MediaElementId>)
        ensures
            r == (if self@.bindings.dom().contains(node.0) {
                Some(self@.bindings[node.0])
            } else {
                None
            }),
    {
        proof {
            use_type_invariant(self);
        }
        match id_find(&self.dom_bindings, node.0) {
            Ok(i) => {
                proof {
                    crate::keyed::lemma_id_entry(self.dom_bindings@, i as int);
                }
                Some(self.dom_bindings[i].1)
            },
            Err(_) => None,
        }
    }

    /// Snapshot of an element.
    pub fn element_snapshot(&self, id: MediaElementId) -> (r: Option<MediaElementSnapshot>)
        ensures
            match r {
                Some(e) => self@.elements.dom().contains(id.0) && e@ == self@.elements[id.0],
                None => !self@.elements.dom().contains(id.0),
            },
    {
        self.element_copy(id.0)
    }

    /// `load()`: the element starts loading; it has metadata when it has a `src`.
    pub fn load(&mut self, id: MediaElementId)
        ensures
            final(self)@ == (MediaView {
                metrics: MediaMetrics { load_calls: sat_inc(old(self)@.metrics.load_calls), ..old(self)@.metrics },
                ..edit_element(
                    old(self)@,
                    id.0,
                    |e: ElementView|
                        ElementView {
                            network_state: MediaNetworkState::Loading,
                            ready_state: if e.src.len() == 0 {
                                MediaReadyState::HaveNothing
                            } else {
                                MediaReadyState::HaveMetadata
                            },
                            ..e
                        },
                )
            }),
    {
        match self.element_copy(id.0) {
            Some(mut e) => {
                e.network_state = MediaNetworkState::Loading;
                e.ready_state = if crate::text::chars_of(e.src.as_str()).len() == 0 {
                    MediaReadyState::HaveNothing
                } else {
                    MediaReadyState::HaveMetadata
                };
                self.store_element(id.0, e);
                proof {
                    use_type_invariant(&*self);
                }
            },
            None => {},
        }
        proof {
            use_type_invariant(&*self);
        }
        self.metrics.load_calls = self.metrics.load_calls.saturating_add(1);
    }

    /// `play()`: the element plays; it has current data at least, and is idle on the network.
    pub fn play(&mut self, id: MediaElementId)
        ensures
            final(self)@ == (MediaView {
                metrics: MediaMetrics { play_calls: sat_inc(old(self)@.metrics.play_calls), ..old(self)@.metrics },
                ..edit_element(
                    old(self)@,
                    id.0,
                    |e: ElementView|
                        ElementView {
                            paused: false,
                            ready_state: if e.ready_state == MediaReadyState::HaveNothing {
                                MediaReadyState::HaveCurrentData
                            } else {
                                e.ready_state
                            },
                            network_state: MediaNetworkState::Idle,
                            ..e
                        },
                )
            }),
    {
        match self.element_copy(id.0) {
            Some(mut e) => {
                e.paused = false;
                if e.ready_state == MediaReadyState::HaveNothing {
                    e.ready_state = MediaReadyState::HaveCurrentData;
                }
                e.network_state = MediaNetworkState::Idle;
                self.store_element(id.0, e);
                proof {
                    use_type_invariant(&*self);
                }
            },
            None => {},
        }
        proof {
            use_type_invariant(&*self);
        }
        self.metrics.play_calls = self.metrics.play_calls.saturating_add(1);
    }

    /// `pause()`.
    pub fn pause(&mut self, id: MediaElementId)
        ensures
            final(self)@ == (MediaView {
                metrics: MediaMetrics { pause_calls: sat_inc(old(self)@.metrics.pause_calls), ..old(self)@.metrics },
                ..edit_element(old(self)@, id.0, |e: ElementView| ElementView { paused: true, ..e })
            }),
    {
        match self.element_copy(id.0) {
            Some(mut e) => {
                e.paused = true;
                self.store_element(id.0, e);
                proof {
                    use_type_invariant(&*self);
                }
            },
            None => {},
        }
        proof {
            use_type_invariant(&*self);
        }
        self.metrics.pause_calls = self.metrics.pause_calls.saturating_add(1);
    }

    /// Seeks: the element's current time becomes `current_time` and a time
    /// update is queued; the seek is counted either way.
    pub fn set_current_time(&mut self, id: MediaElementId, current_time: NumberBits)
        ensures
            final(self)@ == (MediaView {
                time_updates: if old(self)@.elements.dom().contains(id.0) {
                    old(self)@.time_updates.push(MediaTimeUpdate { element: id, current_time })
                } else {
                    old(self)@.time_updates
                },
                metrics: MediaMetrics { seeks: sat_inc(old(self)@.metrics.seeks), ..old(self)@.metrics },
                ..edit_element(old(self)@, id.0, |e: ElementView| ElementView { current_time, ..e })
            }),
    {
        match self.element_copy(id.0) {
            Some(mut e) => {
                e.current_time = current_time;
                self.store_element(id.0, e);
                proof {
                    use_type_invariant(&*self);
                }
                let mut updates: Vec<MediaTimeUpdate> = Vec::new();
                std::mem::swap(&mut updates, &mut self.time_updates);
                updates.push(MediaTimeUpdate { element: id, current_time });
                self.time_updates = updates;
            },
            None => {},
        }
        proof {
            use_type_invariant(&*self);
        }
        self.metrics.seeks = self.metrics.seeks.saturating_add(1);
    }

    /// Sets the volume to `volume`, already clamped to `[0, 1]` by the caller.
    pub fn set_volume(&mut self, id: MediaElementId, volume: NumberBits)
        ensures
            final(self)@ == edit_element(old(self)@, id.0, |e: ElementView| ElementView { volume, ..e }),
    {
        match self.element_copy(id.0) {
            Some(mut e) => {
                e.volume = volume;
                self.store_element(id.0, e);
                proof {
                    use_type_invariant(&*self);
                }
            },
            None => {},
        }
    }

    /// Sets the muted flag.
    pub fn set_muted(&mut self, id: MediaElementId, muted: bool)
        ensures
            final(self)@ == edit_element(old(self)@, id.0, |e: ElementView| ElementView { muted, ..e }),
    {
        match self.element_copy(id.0) {
            Some(mut e) => {
                e.muted = muted;
                self.store_element(id.0, e);
                proof {
                    use_type_invariant(&*self);
                }
            },
            None => {},
        }
    }

    /// `canPlayType`: see `play_type_for`; the check is counted.
    pub fn can_play_type(&mut self, mime: &str) -> (r: String)
        ensures
            r@ == play_type_answer(mime@),
            final(self)@ == (MediaView {
                metrics: MediaMetrics {
                    can_play_type_checks: sat_inc(old(self)@.metrics.can_play_type_checks),
                    ..old(self)@.metrics
                },
                ..old(self)@
            }),
    {
        proof {
            use_type_invariant(&*self);
        }
        self.metrics.can_play_type_checks = self.metrics.can_play_type_checks.saturating_add(1);
        play_type_for(mime)
    }
}

/// The ranges of the buffers `ids`, in that order (a missing buffer gives none).
pub open spec fn ranges_of(m: Map<u64, BufferView>, ids: Seq<SourceBufferId>) -> Seq<BufferedRange>
    decreases ids.len(),
{
    if ids.len() == 0 {
        Seq::empty()
    } else {
        ranges_of(m, ids.drop_last()) + if m.dom().contains(ids.last().0) {
            m[ids.last().0].buffered
        } else {
            Seq::empty()
        }
    }
}

/// What an element attached to `source` buffers: the ranges of the source's
/// buffers, none for a missing source.
pub open spec fn source_ranges<C>(v: MediaView<C>, source: MediaSourceId) -> Seq<BufferedRange> {
    if v.sources.dom().contains(source.0) {
        ranges_of(buffer_map(v), v.sources[source.0].source_buffers)
    } else {
        Seq::empty()
    }
}

/// An element after its source's buffers changed: an element attached to
/// `source` takes `ranges`, and has enough data once there are any.
pub open spec fn refreshed_element(e: ElementView, source: MediaSourceId, ranges: Seq<BufferedRange>) -> ElementView {
    if e.media_source == Some(source) {
        ElementView {
            buffered: ranges,
            ready_state: if ranges.len() > 0 {
                MediaReadyState::HaveEnoughData
            } else {
                e.ready_state
            },
            network_state: if ranges.len() > 0 {
                MediaNetworkState::Idle
            } else {
                e.network_state
            },
            ..e
        }
    } else {
        e
    }
}

/// The host after the elements attached to `source` took its ranges.
pub open spec fn refreshed<C>(v: MediaView<C>, source: MediaSourceId) -> MediaView<C> {
    MediaView {
        elements: v.elements.map_values(|e: ElementView| refreshed_element(e, source, source_ranges(v, source))),
        ..v
    }
}

/// The host with source `k` rewritten by `f`, when it exists.
pub open spec fn edit_source<C>(v: MediaView<C>, k: u64, f: spec_fn(SourceView) -> SourceView) -> MediaView<C> {
    if v.sources.dom().contains(k) {
        MediaView { sources: v.sources.insert(k, f(v.sources[k])), ..v }
    } else {
        v
    }
}

/// The host after attaching `source` to `element`.
pub open spec fn attached<C>(v: MediaView<C>, element: MediaElementId, source: MediaSourceId) -> MediaView<C> {
    let v1 = edit_element(
        v,
        element.0,
        |e: ElementView|
            ElementView {
                media_source: Some(source),
                ready_state: MediaReadyState::HaveMetadata,
                network_state: MediaNetworkState::Loading,
                ..e
            },
    );
    let v2 = edit_source(v1, source.0, |s: SourceView| SourceView { ready_state: MediaSourceState::Open, ..s });
    refreshed(
        MediaView {
            metrics: MediaMetrics {
                media_source_attachments: sat_inc(v2.metrics.media_source_attachments),
                ..v2.metrics
            },
            ..v2
        },
        source,
    )
}

/// The host after setting an element's `src`: an object URL attaches its
/// media source; any other URL is a plain 60-second source, fully buffered.
pub open spec fn with_src<C>(v: MediaView<C>, element: MediaElementId, src: Seq<char>) -> MediaView<C> {
    let source: Option<MediaSourceId> = if v.object_urls.dom().contains(src) {
        Some(v.object_urls[src])
    } else {
        None
    };
    let v1 = edit_element(
        v,
        element.0,
        |e: ElementView|
            ElementView {
                src,
                media_source: source,
                network_state: MediaNetworkState::Loading,
                ready_state: if source is Some {
                    MediaReadyState::HaveMetadata
                } else {
                    MediaReadyState::HaveCurrentData
                },
                buffered: if source is Some {
                    e.buffered
                } else {
                    seq![BufferedRange { start: zero_seconds(), end: plain_source_end() }]
                },
                ..e
            },
    );
    let v2 = MediaView {
        metrics: MediaMetrics { src_assignments: sat_inc(v1.metrics.src_assignments), ..v1.metrics },
        ..v1
    };
    match source {
        Some(s) => attached(v2, element, s),
        None => v2,
    }
}

impl<C> ResearchMediaHost<C> {
    /// A copy of source `k`.
    fn source_copy(&self, k: u64) -> (r: Option<MediaSourceSnapshot>)
        ensures
            match r {
                Some(s) => self@.sources.dom().contains(k) && s@ == self@.sources[k],
                None => !self@.sources.dom().contains(k),
            },
    {
        proof {
            use_type_invariant(self);
        }
        match id_find(&self.sources, k) {
            Ok(i) => {
                proof {
                    crate::keyed::lemma_id_entry(self.sources@, i as int);
                }
                Some(copy_source(&self.sources[i].1))
            },
            Err(_) => None,
        }
    }

    /// Puts source `k`.
    fn store_source(&mut self, k: u64, s: MediaSourceSnapshot)
        ensures
            final(self)@ == (MediaView { sources: old(self)@.sources.insert(k, s@), ..old(self)@ }),
    {
        proof {
            use_type_invariant(&*self);
        }
        let ghost sv = s@;
        let mut sources: Vec<(u64, MediaSourceSnapshot)> = Vec::new();
        std::mem::swap(&mut sources, &mut self.sources);
        id_insert(&mut sources, k, s);
        self.sources = sources;
        assert(self@.sources =~= old(self)@.sources.insert(k, sv));
    }

    /// A copy of buffer `k`.
    fn buffer_copy(&self, k: u64) -> (r: Option<SourceBufferSnapshot>)
        ensures
            ids_sorted(self@.buffers),
            match r {
                Some(b) => buffer_map(self@).dom().contains(k) && b@ == buffer_map(self@)[k],
                None => !buffer_map(self@).dom().contains(k),
            },
    {
        proof {
            use_type_invariant(self);
            lemma_entry_views(self.buffers@);
        }
        match id_find(&self.buffers, k) {
            Ok(i) => {
                proof {
                    crate::keyed::lemma_id_entry(self.buffers@, i as int);
                }
                Some(copy_buffer(&self.buffers[i].1))
            },
            Err(_) => None,
        }
    }

    /// The ranges an element attached to `source` buffers.
    fn ranges_for(&self, source: MediaSourceId) -> (r: Vec<BufferedRange>)
        ensures
            r@ == source_ranges(self@, source),
    {
        let mut r: Vec<BufferedRange> = Vec::new();
        match self.source_copy(source.0) {
            Some(s) => {
                let ids = s.source_buffers;
                let mut j: usize = 0;
                while j < ids.len()
                    invariant
                        j <= ids@.len(),
                        ids@ == self@.sources[source.0].source_buffers,
                        self@.sources.dom().contains(source.0),
                        r@ == ranges_of(buffer_map(self@), ids@.take(j as int)),
                    decreases ids.len() - j,
                {
                    assert(ids@.take(j as int + 1).drop_last() =~= ids@.take(j as int));
                    match self.buffer_copy(ids[j].0) {
                        Some(b) => {
                            let ghost r0 = r@;
                            let mut k: usize = 0;
                            while k < b.buffered.len()
                                invariant
                                    k <= b.buffered@.len(),
                                    r@ == r0 + b.buffered@.take(k as int),
                                decreases b.buffered.len() - k,
                            {
                                r.push(b.buffered[k]);
                                k = k + 1;
                                assert(r@ =~= r0 + b.buffered@.take(k as int));
                            }
                            assert(b.buffered@.take(k as int) =~= b.buffered@);
                        },
                        None => {
                            assert(r@ =~= r@ + Seq::<BufferedRange>::empty());
                        },
                    }
                    j = j + 1;
                }
                assert(ids@.take(ids@.len() as int) =~= ids@);
            },
            None => {},
        }
        r
    }

    /// The elements attached to `source` take its ranges.
    fn refresh(&mut self, source: MediaSourceId)
        ensures
            final(self)@ == refreshed(old(self)@, source),
    {
        proof {
            use_type_invariant(&*self);
        }
        let ranges = self.ranges_for(source);
        let ghost rv = ranges@;
        let ghost f = |e: ElementView| refreshed_element(e, source, rv);
        let mut elements: Vec<(u64, MediaElementSnapshot)> = Vec::new();
        std::mem::swap(&mut elements, &mut self.elements);
        let ghost x0 = elements@;
        let mut i: usize = 0;
        while i < elements.len()
            invariant
                i <= elements@.len(),
                elements@.len() == x0.len(),
                ids_sorted(x0),
                rv == ranges@,
                f == (|e: ElementView| refreshed_element(e, source, rv)),
                forall|j: int| 0 <= j < x0.len() ==> (#[trigger] elements@[j]).0 == x0[j].0,
                forall|j: int| 0 <= j < i ==> (#[trigger] elements@[j]).1@ == f(x0[j].1@),
                forall|j: int| i <= j < x0.len() ==> #[trigger] elements@[j] == x0[j],
            decreases elements.len() - i,
        {
            if elements[i].1.media_source == Some(source) {
                let mut e = copy_element(&elements[i].1);
                e.buffered = copy_ranges(&ranges);
                if ranges.len() > 0 {
                    e.ready_state = MediaReadyState::HaveEnoughData;
                    e.network_state = MediaNetworkState::Idle;
                }
                let k = elements[i].0;
                elements.set(i, (k, e));
            }
            i = i + 1;
        }
        proof {
            assert forall|j: int| 0 <= j < x0.len() implies (#[trigger] elements@[j]).0 == x0[j].0 && elements@[j].1@ == f(
                x0[j].1@,
            ) by {}
            lemma_pointwise(x0, elements@, f);
        }
        self.elements = elements;
        assert(self@.elements =~= old(self)@.elements.map_values(
            |e: ElementView| refreshed_element(e, source, source_ranges(old(self)@, source)),
        ));
    }

    /// Attaches a media source to an element: the element loads its metadata,
    /// the source opens, and the element takes the source's ranges.
    pub fn attach_media_source(&mut self, element: MediaElementId, source: MediaSourceId)
        ensures
            final(self)@ == attached(old(self)@, element, source),
    {
        proof {
            use_type_invariant(&*self);
        }
        match self.element_copy(element.0) {
            Some(mut e) => {
                e.media_source = Some(source);
                e.ready_state = MediaReadyState::HaveMetadata;
                e.network_state = MediaNetworkState::Loading;
                self.store_element(element.0, e);
            },
            None => {},
        }
        match self.source_copy(source.0) {
            Some(mut s) => {
                s.ready_state = MediaSourceState::Open;
                self.store_source(source.0, s);
            },
            None => {},
        }
        proof {
            use_type_invariant(&*self);
        }
        self.metrics.media_source_attachments = self.metrics.media_source_attachments.saturating_add(1);
        self.refresh(source);
    }

    /// Creates an open media source.
    pub fn create_media_source(&mut self) -> (id: MediaSourceId)
        ensures
            id == MediaSourceId(old(self)@.next_source),
            final(self)@ == (MediaView {
                next_source: sat_inc(old(self)@.next_source),
                sources: old(self)@.sources.insert(
                    old(self)@.next_source,
                    SourceView {
                        id,
                        ready_state: MediaSourceState::Open,
                        duration: zero_seconds(),
                        source_buffers: Seq::empty(),
                    },
                ),
                metrics: MediaMetrics {
                    media_sources_created: sat_inc(old(self)@.metrics.media_sources_created),
                    ..old(self)@.metrics
                },
                ..old(self)@
            }),
    {
        let id = MediaSourceId(self.next_source);
        let s = MediaSourceSnapshot {
            id,
            ready_state: MediaSourceState::Open,
            duration: NumberBits(0),
            source_buffers: Vec::new(),
        };
        assert(s@.source_buffers =~= Seq::<SourceBufferId>::empty());
        self.store_source(id.0, s);
        proof {
            use_type_invariant(&*self);
        }
        self.next_source = self.next_source.saturating_add(1);
        self.metrics.media_sources_created = self.metrics.media_sources_created.saturating_add(1);
        id
    }

    /// Snapshot of a media source.
    pub fn media_source_snapshot(&self, id: MediaSourceId) -> (r: Option<MediaSourceSnapshot>)
        ensures
            match r {
                Some(s) => self@.sources.dom().contains(id.0) && s@ == self@.sources[id.0],
                None => !self@.sources.dom().contains(id.0),
            },
    {
        self.source_copy(id.0)
    }

    /// `endOfStream()`: the source ends.
    pub fn end_of_stream(&mut self, source: MediaSourceId)
        ensures
            final(self)@ == edit_source(
                old(self)@,
                source.0,
                |s: SourceView| SourceView { ready_state: MediaSourceState::Ended, ..s },
            ),
    {
        match self.source_copy(source.0) {
            Some(mut s) => {
                s.ready_state = MediaSourceState::Ended;
                self.store_source(source.0, s);
            },
            None => {},
        }
    }

    /// Creates the object URL of a media source.
    pub fn create_object_url(&mut self, source: MediaSourceId) -> (url: String)
        ensures
            url@ == object_url(source),
            final(self)@ == (MediaView {
                object_urls: old(self)@.object_urls.insert(object_url(source), source),
                metrics: MediaMetrics {
                    object_urls_created: sat_inc(old(self)@.metrics.object_urls_created),
                    ..old(self)@.metrics
                },
                ..old(self)@
            }),
    {
        proof {
            use_type_invariant(&*self);
        }
        let url = object_url_for(source);
        let mut urls: Vec<(String, MediaSourceId)> = Vec::new();
        std::mem::swap(&mut urls, &mut self.object_urls);
        table_insert(&mut urls, url.clone(), source);
        self.object_urls = urls;
        self.metrics.object_urls_created = self.metrics.object_urls_created.saturating_add(1);
        url
    }

    /// Revokes an object URL; whether it was live.
    pub fn revoke_object_url(&mut self, url: &str) -> (removed: bool)
        ensures
            removed == old(self)@.object_urls.dom().contains(url@),
            final(self)@ == (MediaView {
                object_urls: old(self)@.object_urls.remove(url@),
                metrics: if removed {
                    MediaMetrics {
                        object_urls_revoked: sat_inc(old(self)@.metrics.object_urls_revoked),
                        ..old(self)@.metrics
                    }
                } else {
                    old(self)@.metrics
                },
                ..old(self)@
            }),
    {
        proof {
            use_type_invariant(&*self);
        }
        let key = crate::text::chars_of(url);
        let mut urls: Vec<(String, MediaSourceId)> = Vec::new();
        std::mem::swap(&mut urls, &mut self.object_urls);
        let r = table_remove(&mut urls, key.as_slice());
        self.object_urls = urls;
        let removed = r.is_some();
        if removed {
            self.metrics.object_urls_revoked = self.metrics.object_urls_revoked.saturating_add(1);
        }
        removed
    }

    /// The media source of a live object URL.
    pub fn media_source_for_object_url(&self, url: &str) -> (r: Option<MediaSourceId>)
        ensures
            r == (if self@.object_urls.dom().contains(url@) {
                Some(self@.object_urls[url@])
            } else {
                None
            }),
    {
        proof {
            use_type_invariant(self);
        }
        let key = crate::text::chars_of(url);
        match table_get(&self.object_urls, key.as_slice()) {
            Some(s) => Some(*s),
            None => None,
        }
    }

    /// Sets an element's `src`; an object URL attaches its media source.
    pub fn set_src(&mut self, id: MediaElementId, src: String)
        ensures
            final(self)@ == with_src(old(self)@, id, src@),
    {
        let ghost sv = src@;
        let source = self.media_source_for_object_url(src.as_str());
        match self.element_copy(id.0) {
            Some(mut e) => {
                e.src = src;
                e.media_source = source;
                e.network_state = MediaNetworkState::Loading;
                match source {
                    Some(_) => {
                        e.ready_state = MediaReadyState::HaveMetadata;
                    },
                    None => {
                        e.ready_state = MediaReadyState::HaveCurrentData;
                        let mut b: Vec<BufferedRange> = Vec::new();
                        b.push(BufferedRange { start: NumberBits(0), end: NumberBits(0x404e_0000_0000_0000) });
                        e.buffered = b;
                        assert(e.buffered@ =~= seq![BufferedRange { start: zero_seconds(), end: plain_source_end() }]);
                    },
                }
                self.store_element(id.0, e);
            },
            None => {},
        }
        proof {
            use_type_invariant(&*self);
        }
        self.metrics.src_assignments = self.metrics.src_assignments.saturating_add(1);
        match source {
            Some(s) => self.attach_media_source(id, s),
            None => {},
        }
    }
}

/// The buffer entry `k` rewritten by `f`.
pub open spec fn edit_buffer(s: Seq<(u64, BufferView)>, k: u64, f: spec_fn(BufferView) -> BufferView) -> Seq<(u64, BufferView)> {
    s.map_values(|e: (u64, BufferView)| if e.0 == k { (e.0, f(e.1)) } else { e })
}

/// `a + b`, or `usize::MAX` when that overflows.
pub open spec fn sat_add_usize(a: usize, b: usize) -> usize {
    if a + b <= usize::MAX {
        (a + b) as usize
    } else {
        usize::MAX
    }
}

/// Where the next segment of a buffer starts: the end of its last range.
pub open spec fn segment_start(b: BufferView) -> NumberBits {
    if b.buffered.len() > 0 {
        b.buffered.last().end
    } else {
        zero_seconds()
    }
}

/// A buffer after a segment of `bytes` ending at `end` was appended.
pub open spec fn appended_buffer(b: BufferView, bytes: usize, end: NumberBits) -> BufferView {
    BufferView {
        state: SourceBufferState::Idle,
        buffered: b.buffered.push(BufferedRange { start: segment_start(b), end }),
        bytes_appended: sat_add_usize(b.bytes_appended, bytes),
        segments: sat_add_usize(b.segments, 1),
        ..b
    }
}

/// The host after appending to buffer `id` a segment of `bytes` ending at
/// `end`, its source's duration becoming `source_duration`.
pub open spec fn with_append<C>(
    v: MediaView<C>,
    id: SourceBufferId,
    bytes: usize,
    end: NumberBits,
    source_duration: NumberBits,
) -> MediaView<C> {
    let counted = MediaMetrics { buffer_appends: sat_inc(v.metrics.buffer_appends), ..v.metrics };
    if buffer_map(v).dom().contains(id.0) {
        let b = buffer_map(v)[id.0];
        let v1 = MediaView {
            buffers: edit_buffer(v.buffers, id.0, |x: BufferView| appended_buffer(x, bytes, end)),
            segments: v.segments.push(MediaSegmentRecord { buffer: id, bytes, start: segment_start(b), end }),
            metrics: counted,
            ..v
        };
        refreshed(edit_source(v1, b.source.0, |s: SourceView| SourceView { duration: source_duration, ..s }), b.source)
    } else {
        MediaView { metrics: counted, ..v }
    }
}

/// The ranges whose flag in `keep` is set.
pub open spec fn kept(ranges: Seq<BufferedRange>, keep: Seq<bool>) -> Seq<BufferedRange>
    decreases ranges.len(),
{
    if ranges.len() == 0 {
        Seq::empty()
    } else if keep[ranges.len() - 1] {
        kept(ranges.drop_last(), keep).push(ranges.last())
    } else {
        kept(ranges.drop_last(), keep)
    }
}

/// The host after a removal on buffer `id` kept the ranges flagged in `keep`.
pub open spec fn with_removal<C>(v: MediaView<C>, id: SourceBufferId, keep: Seq<bool>) -> MediaView<C> {
    let counted = MediaMetrics { buffer_removes: sat_inc(v.metrics.buffer_removes), ..v.metrics };
    if buffer_map(v).dom().contains(id.0) {
        let b = buffer_map(v)[id.0];
        refreshed(
            MediaView {
                buffers: edit_buffer(v.buffers, id.0, |x: BufferView| BufferView { buffered: kept(x.buffered, keep), ..x }),
                metrics: counted,
                ..v
            },
            b.source,
        )
    } else {
        MediaView { metrics: counted, ..v }
    }
}

/// The ends of the ranges of every buffer of `source`, in buffer id order.
pub open spec fn range_ends(s: Seq<(u64, BufferView)>, source: MediaSourceId) -> Seq<NumberBits>
    decreases s.len(),
{
    if s.len() == 0 {
        Seq::empty()
    } else {
        range_ends(s.drop_last(), source) + if s.last().1.source == source {
            s.last().1.buffered.map_values(|r: BufferedRange| r.end)
        } else {
            Seq::empty()
        }
    }
}

/// The callbacks registered for an element and event type, in order.
pub open spec fn matching_callbacks<C>(ls: Seq<(u64, Seq<char>, C)>, element: u64, t: Seq<char>) -> Seq<C>
    decreases ls.len(),
{
    if ls.len() == 0 {
        Seq::empty()
    } else if ls.last().0 == element && ls.last().1 == t {
        matching_callbacks(ls.drop_last(), element, t).push(ls.last().2)
    } else {
        matching_callbacks(ls.drop_last(), element, t)
    }
}

/// Replaces buffer `k` by `b`, when it exists.
fn put_buffer(t: &mut Vec<(u64, SourceBufferSnapshot)>, k: u64, b: SourceBufferSnapshot)
    requires
        ids_sorted(old(t)@),
    ensures
        ids_sorted(final(t)@),
        entry_views(final(t)@) == edit_buffer(entry_views(old(t)@), k, |x: BufferView| b@),
{
    let ghost x0 = t@;
    let ghost bv = b@;
    match id_find(t, k) {
        Ok(i) => {
            t.set(i, (k, b));
            proof {
                assert forall|a: int, c: int| 0 <= a < c < t@.len() implies #[trigger] t@[a].0 < #[trigger] t@[c].0 by {
                    assert(x0[a].0 < x0[c].0);
                }
                assert forall|j: int| 0 <= j < x0.len() && j != i implies #[trigger] x0[j].0 != k by {
                    if j < i {
                        assert(x0[j].0 < x0[i as int].0);
                    } else {
                        assert(x0[i as int].0 < x0[j].0);
                    }
                }
                assert(entry_views(t@) =~= edit_buffer(entry_views(x0), k, |x: BufferView| bv));
            }
        },
        Err(_) => {
            proof {
                assert forall|j: int| 0 <= j < x0.len() implies #[trigger] x0[j].0 != k by {
                    if x0[j].0 == k {
                        assert(has_id(x0, k));
                    }
                }
                assert(entry_views(t@) =~= edit_buffer(entry_views(x0), k, |x: BufferView| bv));
            }
        },
    }
}

proof fn lemma_edit_buffer_const(s: Seq<(u64, BufferView)>, k: u64, old_b: BufferView, f: spec_fn(BufferView) -> BufferView)
    requires
        ids_sorted(s),
        id_map(s).dom().contains(k),
        id_map(s)[k] == old_b,
    ensures
        edit_buffer(s, k, |x: BufferView| f(old_b)) == edit_buffer(s, k, f),
{
    assert forall|j: int| 0 <= j < s.len() && #[trigger] s[j].0 == k implies s[j].1 == old_b by {
        crate::keyed::lemma_id_entry(s, j);
    }
    assert(edit_buffer(s, k, |x: BufferView| f(old_b)) =~= edit_buffer(s, k, f));
}

impl<C> ResearchMediaHost<C> {
    /// Puts buffer `k`, when it exists.
    fn store_buffer(&mut self, k: u64, b: SourceBufferSnapshot)
        ensures
            final(self)@ == (MediaView {
                buffers: edit_buffer(old(self)@.buffers, k, |x: BufferView| b@),
                ..old(self)@
            }),
    {
        proof {
            use_type_invariant(&*self);
        }
        let mut buffers: Vec<(u64, SourceBufferSnapshot)> = Vec::new();
        std::mem::swap(&mut buffers, &mut self.buffers);
        put_buffer(&mut buffers, k, b);
        self.buffers = buffers;
    }

    /// Adds an idle, empty source buffer for `mime` to a media source (which
    /// opens, when it exists).
    pub fn add_source_buffer(&mut self, source: MediaSourceId, mime: String) -> (id: SourceBufferId)
        ensures
            id == SourceBufferId(old(self)@.next_buffer),
            ids_sorted(final(self)@.buffers),
            buffer_map(final(self)@) == buffer_map(old(self)@).insert(
                old(self)@.next_buffer,
                BufferView {
                    id,
                    source,
                    mime_type: mime@,
                    state: SourceBufferState::Idle,
                    buffered: Seq::empty(),
                    bytes_appended: 0,
                    segments: 0,
                    timestamp_offset: zero_seconds(),
                },
            ),
            final(self)@ == (MediaView {
                next_buffer: sat_inc(old(self)@.next_buffer),
                buffers: final(self)@.buffers,
                metrics: MediaMetrics {
                    source_buffers_created: sat_inc(old(self)@.metrics.source_buffers_created),
                    ..old(self)@.metrics
                },
                ..edit_source(
                    old(self)@,
                    source.0,
                    |s: SourceView|
                        SourceView { source_buffers: s.source_buffers.push(id), ready_state: MediaSourceState::Open, ..s },
                )
            }),
    {
        proof {
            use_type_invariant(&*self);
            lemma_entry_views(self.buffers@);
        }
        let id = SourceBufferId(self.next_buffer);
        let b = SourceBufferSnapshot {
            id,
            source,
            mime_type: mime,
            state: SourceBufferState::Idle,
            buffered: Vec::new(),
            bytes_appended: 0,
            segments: 0,
            timestamp_offset: NumberBits(0),
        };
        let ghost bv = b@;
        assert(bv.buffered =~= Seq::<BufferedRange>::empty());
        let mut buffers: Vec<(u64, SourceBufferSnapshot)> = Vec::new();
        std::mem::swap(&mut buffers, &mut self.buffers);
        let ghost x0 = buffers@;
        id_insert(&mut buffers, id.0, b);
        proof {
            lemma_entry_views(buffers@);
            assert(id_map(entry_views(buffers@)) =~= id_map(entry_views(x0)).insert(id.0, bv));
        }
        self.buffers = buffers;
        self.next_buffer = self.next_buffer.saturating_add(1);
        match self.source_copy(source.0) {
            Some(mut s) => {
                s.source_buffers.push(id);
                s.ready_state = MediaSourceState::Open;
                self.store_source(source.0, s);
            },
            None => {},
        }
        proof {
            use_type_invariant(&*self);
        }
        self.metrics.source_buffers_created = self.metrics.source_buffers_created.saturating_add(1);
        id
    }

    /// Snapshot of a source buffer.
    pub fn source_buffer_snapshot(&self, id: SourceBufferId) -> (r: Option<SourceBufferSnapshot>)
        ensures
            match r {
                Some(b) => buffer_map(self@).dom().contains(id.0) && b@ == buffer_map(self@)[id.0],
                None => !buffer_map(self@).dom().contains(id.0),
            },
    {
        self.buffer_copy(id.0)
    }

    /// Appends a segment of `bytes` to a buffer: it starts where the buffer's
    /// last range ends and ends at `end`; the buffer's source then lasts
    /// `source_duration`, and the elements attached to it take its ranges.
    pub fn append_buffer(&mut self, id: SourceBufferId, bytes: usize, end: NumberBits, source_duration: NumberBits)
        ensures
            final(self)@ == with_append(old(self)@, id, bytes, end, source_duration),
    {
        match self.buffer_copy(id.0) {
            Some(b0) => {
                let ghost bv0 = b0@;
                let start = if b0.buffered.len() > 0 {
                    b0.buffered[b0.buffered.len() - 1].end
                } else {
                    NumberBits(0)
                };
                let source = b0.source;
                let mut b = b0;
                b.state = SourceBufferState::Idle;
                b.buffered.push(BufferedRange { start, end });
                b.bytes_appended = b.bytes_appended.saturating_add(bytes);
                b.segments = b.segments.saturating_add(1);
                proof {
                    assert(b@ == appended_buffer(bv0, bytes, end));
                    lemma_edit_buffer_const(old(self)@.buffers, id.0, bv0, |x: BufferView| appended_buffer(x, bytes, end));
                }
                self.store_buffer(id.0, b);
                proof {
                    use_type_invariant(&*self);
                }
                let mut segments: Vec<MediaSegmentRecord> = Vec::new();
                std::mem::swap(&mut segments, &mut self.segments);
                segments.push(MediaSegmentRecord { buffer: id, bytes, start, end });
                self.segments = segments;
                self.metrics.buffer_appends = self.metrics.buffer_appends.saturating_add(1);
                match self.source_copy(source.0) {
                    Some(mut s) => {
                        s.duration = source_duration;
                        self.store_source(source.0, s);
                    },
                    None => {},
                }
                self.refresh(source);
            },
            None => {
                proof {
                    use_type_invariant(&*self);
                }
                self.metrics.buffer_appends = self.metrics.buffer_appends.saturating_add(1);
            },
        }
    }

    /// Removes ranges from a buffer: those whose flag in `keep` is set stay,
    /// and the elements attached to its source take the source's ranges.
    pub fn remove_buffer(&mut self, id: SourceBufferId, keep: &Vec<bool>)
        requires
            buffer_map(old(self)@).dom().contains(id.0) ==> keep@.len() == buffer_map(old(self)@)[id.0].buffered.len(),
        ensures
            final(self)@ == with_removal(old(self)@, id, keep@),
    {
        match self.buffer_copy(id.0) {
            Some(b0) => {
                let ghost bv0 = b0@;
                let source = b0.source;
                let mut ranges: Vec<BufferedRange> = Vec::new();
                let mut i: usize = 0;
                while i < b0.buffered.len()
                    invariant
                        i <= b0.buffered@.len(),
                        keep@.len() == b0.buffered@.len(),
                        ranges@ == kept(b0.buffered@.take(i as int), keep@),
                    decreases b0.buffered.len() - i,
                {
                    assert(b0.buffered@.take(i as int + 1).drop_last() =~= b0.buffered@.take(i as int));
                    if keep[i] {
                        ranges.push(b0.buffered[i]);
                    }
                    i = i + 1;
                }
                assert(b0.buffered@.take(i as int) =~= b0.buffered@);
                let mut b = b0;
                b.buffered = ranges;
                proof {
                    lemma_edit_buffer_const(
                        old(self)@.buffers,
                        id.0,
                        bv0,
                        |x: BufferView| BufferView { buffered: kept(x.buffered, keep@), ..x },
                    );
                }
                self.store_buffer(id.0, b);
                proof {
                    use_type_invariant(&*self);
                }
                self.metrics.buffer_removes = self.metrics.buffer_removes.saturating_add(1);
                self.refresh(source);
            },
            None => {
                proof {
                    use_type_invariant(&*self);
                }
                self.metrics.buffer_removes = self.metrics.buffer_removes.saturating_add(1);
            },
        }
    }

    /// `abort()`: the buffer goes idle.
    pub fn abort_buffer(&mut self, id: SourceBufferId)
        ensures
            final(self)@ == (MediaView {
                buffers: edit_buffer(
                    old(self)@.buffers,
                    id.0,
                    |x: BufferView| BufferView { state: SourceBufferState::Idle, ..x },
                ),
                ..old(self)@
            }),
    {
        match self.buffer_copy(id.0) {
            Some(b0) => {
                let ghost bv0 = b0@;
                let mut b = b0;
                b.state = SourceBufferState::Idle;
                proof {
                    lemma_edit_buffer_const(
                        old(self)@.buffers,
                        id.0,
                        bv0,
                        |x: BufferView| BufferView { state: SourceBufferState::Idle, ..x },
                    );
                }
                self.store_buffer(id.0, b);
            },
            None => {
                proof {
                    use_type_invariant(&*self);
                    assert(old(self)@.buffers =~= edit_buffer(
                        old(self)@.buffers,
                        id.0,
                        |x: BufferView| BufferView { state: SourceBufferState::Idle, ..x },
                    )) by {
                        assert forall|j: int| 0 <= j < old(self)@.buffers.len() implies #[trigger] old(self)@.buffers[j].0
                            != id.0 by {
                            if old(self)@.buffers[j].0 == id.0 {
                                assert(has_id(old(self)@.buffers, id.0));
                            }
                        }
                    }
                }
            },
        }
    }

    /// The ends of the ranges of every buffer of `source`, in buffer id
    /// order: what the source's duration is the largest of.
    pub fn source_range_ends(&self, source: MediaSourceId) -> (r: Vec<NumberBits>)
        ensures
            r@ == range_ends(self@.buffers, source),
    {
        let ghost e = self@.buffers;
        let mut r: Vec<NumberBits> = Vec::new();
        let mut i: usize = 0;
        while i < self.buffers.len()
            invariant
                i <= self.buffers@.len(),
                e == entry_views(self.buffers@),
                r@ == range_ends(e.take(i as int), source),
            decreases self.buffers.len() - i,
        {
            assert(e.take(i as int + 1).drop_last() =~= e.take(i as int));
            let b = &self.buffers[i].1;
            if b.source == source {
                let ghost r0 = r@;
                let mut k: usize = 0;
                while k < b.buffered.len()
                    invariant
                        k <= b.buffered@.len(),
                        r@ == r0 + b.buffered@.take(k as int).map_values(|x: BufferedRange| x.end),
                    decreases b.buffered.len() - k,
                {
                    r.push(b.buffered[k].end);
                    k = k + 1;
                    assert(r@ =~= r0 + b.buffered@.take(k as int).map_values(|x: BufferedRange| x.end));
                }
                assert(b.buffered@.take(k as int) =~= b.buffered@);
            } else {
                assert(r@ =~= r@ + Seq::<NumberBits>::empty());
            }
            i = i + 1;
        }
        assert(e.take(i as int) =~= e);
        r
    }

    /// Registers a listener.
    pub fn add_event_listener(&mut self, element: MediaElementId, event_type: &str, callback: C)
        ensures
            final(self)@ == (MediaView {
                listeners: old(self)@.listeners.push((element.0, event_type@, callback)),
                ..old(self)@
            }),
    {
        proof {
            use_type_invariant(&*self);
        }
        let mut listeners: Vec<MediaListener<C>> = Vec::new();
        std::mem::swap(&mut listeners, &mut self.listeners);
        let ghost l0 = listeners@;
        let l = MediaListener { element: element.0, event_type: owned(event_type), callback };
        let ghost entry = (element.0, event_type@, l.callback);
        listeners.push(l);
        self.listeners = listeners;
        assert(listener_views(self.listeners@) =~= listener_views(l0).push(entry));
    }

    /// The listeners of an element for an event type, in registration order.
    pub fn event_listeners(&self, element: MediaElementId, event_type: &str) -> (r: Vec<C>) where C: Clone
        ensures
            r@.len() == matching_callbacks(self@.listeners, element.0, event_type@).len(),
            forall|i: int|
                0 <= i < r@.len() ==> cloned(matching_callbacks(self@.listeners, element.0, event_type@)[i], #[trigger] r@[i]),
    {
        let ghost ls = self@.listeners;
        let mut r: Vec<C> = Vec::new();
        let mut i: usize = 0;
        while i < self.listeners.len()
            invariant
                i <= self.listeners@.len(),
                ls == self@.listeners,
                r@.len() == matching_callbacks(ls.take(i as int), element.0, event_type@).len(),
                forall|k: int|
                    0 <= k < r@.len() ==> cloned(matching_callbacks(ls.take(i as int), element.0, event_type@)[k], #[trigger] r@[k]),
            decreases self.listeners.len() - i,
        {
            assert(ls.take(i as int + 1).drop_last() =~= ls.take(i as int));
            let l = &self.listeners[i];
            if l.element == element.0 && str_eq(l.event_type.as_str(), event_type) {
                let c = l.callback.clone();
                r.push(c);
            }
            i = i + 1;
        }
        assert(ls.take(i as int) =~= ls);
        r
    }

    /// Records an event.
    pub fn record_event(&mut self, record: MediaEventRecord)
        ensures
            final(self)@ == (MediaView {
                events: old(self)@.events.push(record@),
                metrics: MediaMetrics { events: sat_inc(old(self)@.metrics.events), ..old(self)@.metrics },
                ..old(self)@
            }),
    {
        proof {
            use_type_invariant(&*self);
        }
        let ghost rv = record@;
        let mut events: Vec<MediaEventRecord> = Vec::new();
        std::mem::swap(&mut events, &mut self.events);
        let ghost e0 = events@;
        events.push(record);
        self.events = events;
        self.metrics.events = self.metrics.events.saturating_add(1);
        assert(event_views(self.events@) =~= event_views(e0).push(rv));
    }

    /// The counters.
    pub fn metrics(&self) -> (m: MediaMetrics)
        ensures
            m == self@.metrics,
    {
        self.metrics
    }

    /// The recorded events, in order.
    pub fn events(&self) -> (r: Vec<MediaEventRecord>)
        ensures
            event_views(r@) == self@.events,
    {
        let mut r: Vec<MediaEventRecord> = Vec::new();
        let mut i: usize = 0;
        while i < self.events.len()
            invariant
                i <= self.events@.len(),
                r@.len() == i,
                forall|j: int| 0 <= j < i ==> (#[trigger] r@[j])@ == self.events@[j]@,
            decreases self.events.len() - i,
        {
            let e = &self.events[i];
            r.push(MediaEventRecord {
                element: e.element,
                source: e.source,
                buffer: e.buffer,
                event_type: e.event_type.clone(),
            });
            i = i + 1;
        }
        assert(event_views(r@) =~= event_views(self.events@));
        r
    }

    /// The appended segments, in order.
    pub fn segments(&self) -> (r: Vec<MediaSegmentRecord>)
        ensures
            r@ == self@.segments,
    {
        let mut r: Vec<MediaSegmentRecord> = Vec::new();
        let mut i: usize = 0;
        while i < self.segments.len()
            invariant
                i <= self.segments@.len(),
                r@ == self.segments@.take(i as int),
            decreases self.segments.len() - i,
        {
            r.push(self.segments[i]);
            i = i + 1;
            assert(r@ =~= self.segments@.take(i as int));
        }
        assert(self.segments@.take(i as int) =~= self.segments@);
        r
    }
}

impl<C> Default for ResearchMediaHost<C> {
    fn default() -> (h: Self)
        ensures
            h@.next_element == 1,
            h@.next_source == 1,
            h@.next_buffer == 1,
            h@.elements == Map::<u64, ElementView>::empty(),
            h@.bindings == Map::<u64, MediaElementId>::empty(),
            h@.sources == Map::<u64, SourceView>::empty(),
            h@.buffers == Seq::<(u64, BufferView)>::empty(),
            h@.object_urls == Map::<Seq<char>, MediaSourceId>::empty(),
            h@.listeners == Seq::<(u64, Seq<char>, C)>::empty(),
            h@.events == Seq::<EventView>::empty(),
            h@.segments == Seq::<MediaSegmentRecord>::empty(),
            h@.time_updates == Seq::<MediaTimeUpdate>::empty(),
            h@.metrics == zero_media_metrics(),
    {
        ResearchMediaHost::new()
    }
}

proof fn lemma_refresh_syncs<C>(v: MediaView<C>, source: MediaSourceId)
    ensures
        source_ranges(refreshed(v, source), source) == source_ranges(v, source),
        forall|k: u64|
            #[trigger] refreshed(v, source).elements.dom().contains(k) && refreshed(v, source).elements[k].media_source
                == Some(source) ==> refreshed(v, source).elements[k].buffered == source_ranges(refreshed(v, source), source),
{
}

/// An object URL resolves to its media source once created, and to nothing
/// once revoked.
pub proof fn lemma_object_url_resolves<C>(v: MediaView<C>, source: MediaSourceId)
    ensures
        v.object_urls.insert(object_url(source), source).dom().contains(object_url(source)),
        v.object_urls.insert(object_url(source), source)[object_url(source)] == source,
        !v.object_urls.insert(object_url(source), source).remove(object_url(source)).dom().contains(object_url(source)),
{
}

/// Setting an element's `src` to a live object URL attaches its media
/// source, and the element then buffers exactly the source's ranges.
pub proof fn lemma_src_object_url_attaches<C>(v: MediaView<C>, element: MediaElementId, url: Seq<char>)
    requires
        v.elements.dom().contains(element.0),
        v.object_urls.dom().contains(url),
    ensures
        with_src(v, element, url).elements[element.0].media_source == Some(v.object_urls[url]),
        with_src(v, element, url).elements[element.0].buffered == source_ranges(
            with_src(v, element, url),
            v.object_urls[url],
        ),
{
    let s = v.object_urls[url];
    let v1 = edit_element(
        v,
        element.0,
        |e: ElementView|
            ElementView {
                src: url,
                media_source: Some(s),
                network_state: MediaNetworkState::Loading,
                ready_state: MediaReadyState::HaveMetadata,
                buffered: e.buffered,
                ..e
            },
    );
    let v2 = MediaView {
        metrics: MediaMetrics { src_assignments: sat_inc(v1.metrics.src_assignments), ..v1.metrics },
        ..v1
    };
    assert(with_src(v, element, url) == attached(v2, element, s));
    let a1 = edit_element(
        v2,
        element.0,
        |e: ElementView|
            ElementView {
                media_source: Some(s),
                ready_state: MediaReadyState::HaveMetadata,
                network_state: MediaNetworkState::Loading,
                ..e
            },
    );
    let a2 = edit_source(a1, s.0, |x: SourceView| SourceView { ready_state: MediaSourceState::Open, ..x });
    let a3 = MediaView {
        metrics: MediaMetrics { media_source_attachments: sat_inc(a2.metrics.media_source_attachments), ..a2.metrics },
        ..a2
    };
    assert(a3.elements.dom().contains(element.0));
    assert(a3.elements[element.0].media_source == Some(s));
    lemma_refresh_syncs(a3, s);
}

/// After a segment is appended to a buffer, every element attached to the
/// buffer's source buffers exactly the source's ranges.
pub proof fn lemma_append_syncs_elements<C>(
    v: MediaView<C>,
    id: SourceBufferId,
    bytes: usize,
    end: NumberBits,
    source_duration: NumberBits,
)
    requires
        buffer_map(v).dom().contains(id.0),
    ensures
        forall|k: u64|
            #[trigger] with_append(v, id, bytes, end, source_duration).elements.dom().contains(k) && with_append(
                v,
                id,
                bytes,
                end,
                source_duration,
            ).elements[k].media_source == Some(buffer_map(v)[id.0].source) ==> with_append(
                v,
                id,
                bytes,
                end,
                source_duration,
            ).elements[k].buffered == source_ranges(with_append(v, id, bytes, end, source_duration), buffer_map(v)[id.0].source),
{
    let b = buffer_map(v)[id.0];
    let counted = MediaMetrics { buffer_appends: sat_inc(v.metrics.buffer_appends), ..v.metrics };
    let v1 = MediaView {
        buffers: edit_buffer(v.buffers, id.0, |x: BufferView| appended_buffer(x, bytes, end)),
        segments: v.segments.push(MediaSegmentRecord { buffer: id, bytes, start: segment_start(b), end }),
        metrics: counted,
        ..v
    };
    let v2 = edit_source(v1, b.source.0, |s: SourceView| SourceView { duration: source_duration, ..s });
    lemma_refresh_syncs(v2, b.source);
}

} // verus!
