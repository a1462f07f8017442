//! Synthetic YouTube-like benchmark: workload configuration, the generated
//! watch-page script, its routes, and the aggregation of what a run measured.

use crate::ast::ProgramKind;
use crate::event_loop::EventLoopConfig;
use crate::security::string_views;
use crate::site_compat::{append_decimal, clamp_spec, clamp_u32, sat_sum};
use crate::text::{append_str, byte_len, count_lines, decimal, line_count, owned, utf8_len};
use crate::vm::VmConfig;
use vstd::prelude::*;

verus! {

broadcast use vstd::string::group_string_axioms;

/// Benchmark profile.
#[derive(Debug, Clone, Copy, PartialEq, Eq, Structural)]
pub enum BenchmarkProfile {
    /// Small smoke test profile.
    Smoke,
    /// Default paper-friendly profile.
    Standard,
    /// Heavier stress profile.
    Stress,
}

impl Default for BenchmarkProfile {
    fn default() -> (p: Self)
        ensures
            p == BenchmarkProfile::Standard,
    {
        BenchmarkProfile::Standard
    }
}

/// Named benchmark scenario.
#[derive(Debug, Clone, PartialEq, Eq)]
pub struct BenchmarkScenario {
    /// Scenario id.
    pub id: String,
    /// Human-readable title.
    pub title: String,
    /// Scenario description.
    pub description: String,
}

/// The default scenario's id.
pub open spec fn scenario_id() -> Seq<char> {
    "synthetic-tube-watch"@
}

/// The default scenario's title.
pub open spec fn scenario_title() -> Seq<char> {
    "SyntheticTube watch page"@
}

/// The default scenario's description.
pub open spec fn scenario_description() -> Seq<char> {
    "YouTube-like page boot, player setup, manifest fetch, MSE buffering, canvas overlay rendering, storage/history, and Worker-lite decode messages."@
}

impl Default for BenchmarkScenario {
    fn default() -> (s: Self)
        ensures
            s.id@ == scenario_id(),
            s.title@ == scenario_title(),
            s.description@ == scenario_description(),
    {
        Self {
            id: owned("synthetic-tube-watch"),
            title: owned("SyntheticTube watch page"),
            description: owned(
                "YouTube-like page boot, player setup, manifest fetch, MSE buffering, canvas overlay rendering, storage/history, and Worker-lite decode messages.",
            ),
        }
    }
}

/// Benchmark configuration.
#[derive(Debug, Clone, PartialEq, Eq)]
pub struct BenchmarkConfig {
    /// Profile.
    pub profile: BenchmarkProfile,
    /// Frame count drawn through Canvas 2D.
    pub frame_count: u32,
    /// Synthetic media segments fetched/appended.
    pub segment_count: u32,
    /// Worker messages posted.
    pub worker_message_count: u32,
    /// DOM recommendation card count.
    pub recommendation_count: u32,
    /// Style mutation iterations.
    pub style_mutation_count: u32,
    /// Timer interval in ms.
    pub timer_interval_ms: u64,
    /// VM instruction budget.
    pub instruction_budget: u64,
    /// VM call-depth limit.
    pub max_call_depth: usize,
    /// Event loop job budget.
    pub max_jobs_per_run: u64,
    /// Whether timers auto-advance.
    pub auto_advance_time: bool,
    /// Benchmark scenario metadata.
    pub scenario: BenchmarkScenario,
}

/// The numeric settings of a benchmark configuration.
pub struct BenchmarkSettings {
    pub profile: BenchmarkProfile,
    pub frame_count: u32,
    pub segment_count: u32,
    pub worker_message_count: u32,
    pub recommendation_count: u32,
    pub style_mutation_count: u32,
    pub timer_interval_ms: u64,
    pub instruction_budget: u64,
    pub max_call_depth: usize,
    pub max_jobs_per_run: u64,
    pub auto_advance_time: bool,
}

/// The settings of a configuration.
pub open spec fn settings_of(c: BenchmarkConfig) -> BenchmarkSettings {
    BenchmarkSettings {
        profile: c.profile,
        frame_count: c.frame_count,
        segment_count: c.segment_count,
        worker_message_count: c.worker_message_count,
        recommendation_count: c.recommendation_count,
        style_mutation_count: c.style_mutation_count,
        timer_interval_ms: c.timer_interval_ms,
        instruction_budget: c.instruction_budget,
        max_call_depth: c.max_call_depth,
        max_jobs_per_run: c.max_jobs_per_run,
        auto_advance_time: c.auto_advance_time,
    }
}

/// The settings of a profile.
pub open spec fn profile_settings(p: BenchmarkProfile) -> BenchmarkSettings {
    match p {
        BenchmarkProfile::Smoke => BenchmarkSettings {
            profile: p,
            frame_count: 4,
            segment_count: 2,
            worker_message_count: 2,
            recommendation_count: 4,
            style_mutation_count: 3,
            timer_interval_ms: 8,
            instruction_budget: 150000,
            max_call_depth: 128,
            max_jobs_per_run: 2000,
            auto_advance_time: true,
        },
        BenchmarkProfile::Standard => BenchmarkSettings {
            profile: p,
            frame_count: 12,
            segment_count: 4,
            worker_message_count: 4,
            recommendation_count: 12,
            style_mutation_count: 8,
            timer_interval_ms: 16,
            instruction_budget: 750000,
            max_call_depth: 256,
            max_jobs_per_run: 10000,
            auto_advance_time: true,
        },
        BenchmarkProfile::Stress => BenchmarkSettings {
            profile: p,
            frame_count: 48,
            segment_count: 12,
            worker_message_count: 16,
            recommendation_count: 32,
            style_mutation_count: 32,
            timer_interval_ms: 16,
            instruction_budget: 3000000,
            max_call_depth: 512,
            max_jobs_per_run: 50000,
            auto_advance_time: true,
        },
    }
}

/// Sanitized settings: counts clamped, the interval capped at one second,
/// budgets raised to their floors.
pub open spec fn sanitized_settings(c: BenchmarkSettings) -> BenchmarkSettings {
    BenchmarkSettings {
        frame_count: clamp_spec(c.frame_count as int, 1, 10000) as u32,
        segment_count: clamp_spec(c.segment_count as int, 1, 1000) as u32,
        worker_message_count: clamp_spec(c.worker_message_count as int, 0, 10000) as u32,
        recommendation_count: clamp_spec(c.recommendation_count as int, 0, 5000) as u32,
        style_mutation_count: clamp_spec(c.style_mutation_count as int, 0, 10000) as u32,
        timer_interval_ms: if c.timer_interval_ms > 1000 {
            1000
        } else {
            c.timer_interval_ms
        },
        instruction_budget: if c.instruction_budget < 1000 {
            1000
        } else {
            c.instruction_budget
        },
        max_jobs_per_run: if c.max_jobs_per_run < 128 {
            128
        } else {
            c.max_jobs_per_run
        },
        ..c
    }
}

impl Default for BenchmarkConfig {
    fn default() -> (c: Self)
        ensures
            settings_of(c) == profile_settings(BenchmarkProfile::Standard),
            c.scenario.id@ == scenario_id(),
    {
        Self::for_profile(BenchmarkProfile::Standard)
    }
}

impl BenchmarkConfig {
    /// Creates a config for a named profile, with the default scenario.
    pub fn for_profile(profile: BenchmarkProfile) -> (c: Self)
        ensures
            settings_of(c) == profile_settings(profile),
            c.scenario.id@ == scenario_id(),
            c.scenario.title@ == scenario_title(),
            c.scenario.description@ == scenario_description(),
    {
        match profile {
            BenchmarkProfile::Smoke => Self {
                profile,
                frame_count: 4,
                segment_count: 2,
                worker_message_count: 2,
                recommendation_count: 4,
                style_mutation_count: 3,
                timer_interval_ms: 8,
                instruction_budget: 150_000,
                max_call_depth: 128,
                max_jobs_per_run: 2_000,
                auto_advance_time: true,
                scenario: BenchmarkScenario::default(),
            },
            BenchmarkProfile::Standard => Self {
                profile,
                frame_count: 12,
                segment_count: 4,
                worker_message_count: 4,
                recommendation_count: 12,
                style_mutation_count: 8,
                timer_interval_ms: 16,
                instruction_budget: 750_000,
                max_call_depth: 256,
                max_jobs_per_run: 10_000,
                auto_advance_time: true,
                scenario: BenchmarkScenario::default(),
            },
            BenchmarkProfile::Stress => Self {
                profile,
                frame_count: 48,
                segment_count: 12,
                worker_message_count: 16,
                recommendation_count: 32,
                style_mutation_count: 32,
                timer_interval_ms: 16,
                instruction_budget: 3_000_000,
                max_call_depth: 512,
                max_jobs_per_run: 50_000,
                auto_advance_time: true,
                scenario: BenchmarkScenario::default(),
            },
        }
    }

    /// Returns VM config.
    pub fn vm_config(&self) -> (c: VmConfig)
        ensures
            c.instruction_budget == self.instruction_budget,
            c.max_call_depth == self.max_call_depth,
    {
        VmConfig { instruction_budget: self.instruction_budget, max_call_depth: self.max_call_depth }
    }

    /// Returns event-loop config: the job budget also bounds timer advances.
    pub fn event_loop_config(&self) -> (c: EventLoopConfig)
        ensures
            c.max_jobs_per_run == self.max_jobs_per_run,
            c.max_timer_advances == self.max_jobs_per_run,
            c.auto_advance_time == self.auto_advance_time,
    {
        EventLoopConfig {
            max_jobs_per_run: self.max_jobs_per_run,
            max_timer_advances: self.max_jobs_per_run,
            auto_advance_time: self.auto_advance_time,
        }
    }

    /// Sanitizes values that could otherwise create nonsense workloads; the
    /// scenario is kept.
    pub fn sanitized(self) -> (c: Self)
        ensures
            settings_of(c) == sanitized_settings(settings_of(self)),
            c.scenario == self.scenario,
    {
        Self {
            profile: self.profile,
            frame_count: clamp_u32(self.frame_count, 1, 10_000),
            segment_count: clamp_u32(self.segment_count, 1, 1_000),
            worker_message_count: clamp_u32(self.worker_message_count, 0, 10_000),
            recommendation_count: clamp_u32(self.recommendation_count, 0, 5_000),
            style_mutation_count: clamp_u32(self.style_mutation_count, 0, 10_000),
            timer_interval_ms: if self.timer_interval_ms > 1_000 {
                1_000
            } else {
                self.timer_interval_ms
            },
            instruction_budget: if self.instruction_budget < 1_000 {
                1_000
            } else {
                self.instruction_budget
            },
            max_call_depth: self.max_call_depth,
            max_jobs_per_run: if self.max_jobs_per_run < 128 {
                128
            } else {
                self.max_jobs_per_run
            },
            auto_advance_time: self.auto_advance_time,
            scenario: self.scenario,
        }
    }
}

// ---------------------------------------------------------------------------
// The generated script and its routes
// ---------------------------------------------------------------------------

/// Text piece 0 of the watch-page script template.
pub const TUBE_0: &'static str = r##"
document.title = "SyntheticTube Watch";
history.pushState({}, "", "/watch?v=sylphos-benchmark");
localStorage.setItem("sylphos.autoplay", "1");
sessionStorage.setItem("sylphos.session", "benchmark");

document.styleSheets[0].insertRule(".synthetic-shell { color: #f1f1f1; background-color: #0f0f0f; }", 0);
document.styleSheets[0].insertRule(".recommendation { color: #cccccc; font-size: 14px; }", 1);
document.styleSheets[0].insertRule(".hot { color: #ffffff; }", 2);

const shell = document.createElement("div");
shell.id = "synthetic-root";
shell.className = "synthetic-shell";
shell.style.width = "1280px";
shell.style.padding = "16px";
document.body.appendChild(shell);

const title = document.createElement("h1");
title.id = "watch-title";
title.textContent = "Sylphos Synthetic Playback Benchmark";
shell.appendChild(title);

const stats = document.createElement("p");
stats.id = "stats";
stats.textContent = "booting";
shell.appendChild(stats);

const player = new HTMLVideoElement();
player.id = "player";
player.className = "media-player";
player.style.width = "1280px";
player.style.height = "720px";
player.controls = true;
shell.appendChild(player);

const overlay = new HTMLCanvasElement();
overlay.id = "overlay";
overlay.width = 1280;
overlay.height = 720;
overlay.style.width = "1280px";
overlay.style.height = "720px";
shell.appendChild(overlay);

const ctx = overlay.getContext("2d");
ctx.font = "20px sans-serif";
ctx.fillStyle = "#ffffff";
ctx.strokeStyle = "#ff0000";
ctx.lineWidth = 2;

const mediaSource = new MediaSource();
const objectUrl = URL.createObjectURL(mediaSource);
player.src = objectUrl;
const sourceBuffer = mediaSource.addSourceBuffer("video/mp4; codecs=\"avc1.42E01E\"");

const worker = new Worker("synthetic-decoder-worker.js");
worker.onmessage = function (event) {
    console.log("worker-message", event.data);
};

player.addEventListener("play", function (event) {
    console.log("media-event", event.type);
});

player.addEventListener("timeupdate", function (event) {
    console.log("timeupdate", player.currentTime);
});

fetch("/api/player/manifest")
    .then(function (response) {
        response.text().then(function (manifest) {
            localStorage.setItem("manifest", manifest);
            stats.textContent = "manifest-loaded";
            console.log("manifest", manifest);
        });
    });

let recommendationIndex = 0;
while (recommendationIndex < "##;
/// Text piece 1 of the watch-page script template.
pub const TUBE_1: &'static str = r##") {
    const card = document.createElement("div");
    card.className = "recommendation";
    card.textContent = "Recommended video " + recommendationIndex;
    shell.appendChild(card);
    recommendationIndex = recommendationIndex + 1;
}

let styleIndex = 0;
while (styleIndex < "##;
/// Text piece 2 of the watch-page script template.
pub const TUBE_2: &'static str = r##") {
    title.style.fontSize = (20 + styleIndex) + "px";
    title.style.color = "#ffffff";
    const computedColor = getComputedStyle(title).color;
    if (styleIndex == 0) {
        console.log("computed-color", computedColor);
    }
    styleIndex = styleIndex + 1;
}

let segmentIndex = 0;
function fetchNextSegment() {
    if (segmentIndex >= "##;
/// Text piece 3 of the watch-page script template.
pub const TUBE_3: &'static str = r##") {
        mediaSource.endOfStream();
        stats.textContent = "buffered";
        console.log("buffer-complete", player.buffered.length);
        return;
    }

    const nextUrl = "/media/seg-" + segmentIndex;
    fetch(nextUrl).then(function (response) {
        response.text().then(function (segment) {
            sourceBuffer.appendBuffer(segment);
            worker.postMessage("decode-" + segmentIndex);
            console.log("segment", segmentIndex, player.buffered.length);
            segmentIndex = segmentIndex + 1;
            queueMicrotask(fetchNextSegment);
        });
    });
}

fetchNextSegment();

let workerIndex = 0;
while (workerIndex < "##;
/// Text piece 4 of the watch-page script template.
pub const TUBE_4: &'static str = r##") {
    worker.postMessage("analytics-" + workerIndex);
    workerIndex = workerIndex + 1;
}

function drawFrame(index) {
    ctx.clearRect(0, 0, 1280, 720);
    ctx.fillStyle = "#111111";
    ctx.fillRect(0, 0, 1280, 720);
    ctx.fillStyle = "#ffffff";
    ctx.fillText("SyntheticTube frame " + index, 40, 60);
    ctx.strokeStyle = "#ff0033";
    ctx.strokeRect(32 + index, 80, 320, 180);
    ctx.beginPath();
    ctx.moveTo(40, 320);
    ctx.lineTo(400, 320 + index);
    ctx.stroke();
}

let frame = 0;
const frameTimer = setInterval(function () {
    drawFrame(frame);
    player.currentTime = frame;
    frame = frame + 1;

    if (frame >= "##;
/// Text piece 5 of the watch-page script template.
pub const TUBE_5: &'static str = r##") {
        clearInterval(frameTimer);
        const data = overlay.toDataURL("image/png");
        console.log("frames-complete", frame, data);
    }
}, "##;
/// Text piece 6 of the watch-page script template.
pub const TUBE_6: &'static str = r##");

player.play().then(function () {
    console.log("play-promise", player.readyState);
});

queueMicrotask(function () {
    console.log("microtask-checkpoint", document.title);
});

console.log("benchmark-start", document.title);
"##;

/// The watch-page script for sanitized settings.
pub open spec fn tube_script(s: BenchmarkSettings) -> Seq<char> {
    TUBE_0@ + decimal(s.recommendation_count as nat) + TUBE_1@ + decimal(s.style_mutation_count as nat)
        + TUBE_2@ + decimal(s.segment_count as nat) + TUBE_3@ + decimal(s.worker_message_count as nat)
        + TUBE_4@ + decimal(s.frame_count as nat) + TUBE_5@ + decimal(s.timer_interval_ms as nat) + TUBE_6@
}

/// Builds the synthetic YouTube-like workload script from the sanitized
/// configuration.
pub fn build_youtube_like_script(config: &BenchmarkConfig) -> (s: String)
    ensures
        s@ == tube_script(sanitized_settings(settings_of(*config))),
{
    let frame_count = clamp_u32(config.frame_count, 1, 10_000);
    let segment_count = clamp_u32(config.segment_count, 1, 1_000);
    let worker_message_count = clamp_u32(config.worker_message_count, 0, 10_000);
    let recommendation_count = clamp_u32(config.recommendation_count, 0, 5_000);
    let style_mutation_count = clamp_u32(config.style_mutation_count, 0, 10_000);
    let timer_interval_ms = if config.timer_interval_ms > 1_000 {
        1_000
    } else {
        config.timer_interval_ms
    };
    let mut s = owned(TUBE_0);
    append_decimal(&mut s, recommendation_count as u64);
    append_str(&mut s, TUBE_1);
    append_decimal(&mut s, style_mutation_count as u64);
    append_str(&mut s, TUBE_2);
    append_decimal(&mut s, segment_count as u64);
    append_str(&mut s, TUBE_3);
    append_decimal(&mut s, worker_message_count as u64);
    append_str(&mut s, TUBE_4);
    append_decimal(&mut s, frame_count as u64);
    append_str(&mut s, TUBE_5);
    append_decimal(&mut s, timer_interval_ms);
    append_str(&mut s, TUBE_6);
    s
}


/// The manifest served for a configuration.
pub open spec fn manifest_text(c: BenchmarkSettings) -> Seq<char> {
    "manifest:segments="@ + decimal(c.segment_count as nat) + ",frames="@ + decimal(c.frame_count as nat)
        + ",workers="@ + decimal(c.worker_message_count as nat)
}

/// The frame list of a segment payload: `frame0;frame1;...` up to `n`.
pub open spec fn frame_ticks(n: nat) -> Seq<char>
    decreases n,
{
    if n == 0 {
        Seq::empty()
    } else {
        frame_ticks((n - 1) as nat) + "frame"@ + decimal((n - 1) as nat) + ";"@
    }
}

/// The payload of media segment `index`.
pub open spec fn segment_payload(index: u32) -> Seq<char> {
    "sylphos-segment:"@ + decimal(index as nat) + ":"@ + frame_ticks(64)
}

/// The manifest body for a configuration.
pub fn manifest_body(config: &BenchmarkConfig) -> (s: String)
    ensures
        s@ == manifest_text(settings_of(*config)),
{
    let mut s = owned("manifest:segments=");
    append_decimal(&mut s, config.segment_count as u64);
    append_str(&mut s, ",frames=");
    append_decimal(&mut s, config.frame_count as u64);
    append_str(&mut s, ",workers=");
    append_decimal(&mut s, config.worker_message_count as u64);
    s
}

/// The synthetic payload of media segment `index`: its number and 64 frame ticks.
pub fn synthetic_segment_payload(index: u32) -> (s: String)
    ensures
        s@ == segment_payload(index),
{
    let mut s = owned("sylphos-segment:");
    append_decimal(&mut s, index as u64);
    append_str(&mut s, ":");
    let ghost head = s@;
    let mut tick: u64 = 0;
    while tick < 64
        invariant
            tick <= 64,
            s@ == head + frame_ticks(tick as nat),
            head == "sylphos-segment:"@ + decimal(index as nat) + ":"@,
        decreases 64 - tick,
    {
        append_str(&mut s, "frame");
        append_decimal(&mut s, tick);
        append_str(&mut s, ";");
        tick = tick + 1;
        assert(s@ =~= head + frame_ticks(tick as nat));
    }
    s
}

/// One route the benchmark serves: path, response URL and body.
#[derive(Debug, Clone, PartialEq, Eq)]
pub struct BenchmarkRoute {
    /// Request path.
    pub path: String,
    /// Response URL.
    pub url: String,
    /// Response body.
    pub body: String,
}

/// The routes of a configuration: the manifest, then one per segment.
pub open spec fn route_at(c: BenchmarkSettings, i: int) -> (Seq<char>, Seq<char>, Seq<char>) {
    if i == 0 {
        ("/api/player/manifest"@, "https://synthetic.tube/api/player/manifest"@, manifest_text(c))
    } else {
        (
            "/media/seg-"@ + decimal((i - 1) as nat),
            "https://synthetic.tube/media/seg-"@ + decimal((i - 1) as nat),
            segment_payload((i - 1) as u32),
        )
    }
}

/// The routes the benchmark registers: the manifest and every segment.
pub fn benchmark_routes(config: &BenchmarkConfig) -> (r: Vec<BenchmarkRoute>)
    ensures
        r@.len() == config.segment_count + 1,
        forall|i: int|
            0 <= i < r@.len() ==> (#[trigger] r@[i].path@, r@[i].url@, r@[i].body@) == route_at(
                settings_of(*config),
                i,
            ),
{
    let mut r: Vec<BenchmarkRoute> = Vec::new();
    r.push(
        BenchmarkRoute {
            path: owned("/api/player/manifest"),
            url: owned("https://synthetic.tube/api/player/manifest"),
            body: manifest_body(config),
        },
    );
    let mut index: u32 = 0;
    while index < config.segment_count
        invariant
            index <= config.segment_count,
            r@.len() == index + 1,
            forall|i: int|
                0 <= i < r@.len() ==> (#[trigger] r@[i].path@, r@[i].url@, r@[i].body@) == route_at(
                    settings_of(*config),
                    i,
                ),
        decreases config.segment_count - index,
    {
        let mut path = owned("/media/seg-");
        append_decimal(&mut path, index as u64);
        let mut url = owned("https://synthetic.tube/media/seg-");
        append_decimal(&mut url, index as u64);
        r.push(BenchmarkRoute { path, url, body: synthetic_segment_payload(index) });
        index = index + 1;
    }
    r
}

// ---------------------------------------------------------------------------
// Run records
// ---------------------------------------------------------------------------

/// Console line with index.
#[derive(Debug, Clone, PartialEq, Eq)]
pub struct BenchmarkConsoleRecord {
    /// Console index.
    pub index: usize,
    /// Console line.
    pub line: String,
}

/// Numbers each console line by its position.
pub fn console_records(lines: &Vec<String>) -> (r: Vec<BenchmarkConsoleRecord>)
    ensures
        r@.len() == lines@.len(),
        forall|i: int| 0 <= i < r@.len() ==> #[trigger] r@[i].index == i && r@[i].line@ == lines@[i]@,
{
    let mut r: Vec<BenchmarkConsoleRecord> = Vec::new();
    let mut i: usize = 0;
    while i < lines.len()
        invariant
            i <= lines@.len(),
            r@.len() == i,
            forall|k: int| 0 <= k < i ==> #[trigger] r@[k].index == k && r@[k].line@ == lines@[k]@,
        decreases lines.len() - i,
    {
        r.push(BenchmarkConsoleRecord { index: i, line: lines[i].clone() });
        i = i + 1;
    }
    r
}

/// Script summary.
#[derive(Debug, Clone, Copy, PartialEq, Eq, Structural)]
pub struct BenchmarkScriptSummary {
    /// Script kind.
    pub kind: ProgramKind,
    /// Script byte length.
    pub bytes: usize,
    /// Estimated line count.
    pub lines: usize,
    /// Expected frame count.
    pub expected_frames: u32,
    /// Expected media segment count.
    pub expected_segments: u32,
    /// Expected worker messages.
    pub expected_worker_messages: u32,
}

/// Summarizes the generated script of a run: a classic script, its size and
/// line count, and the work the configuration expects.
pub fn benchmark_script_summary(config: &BenchmarkConfig, source: &str) -> (s: BenchmarkScriptSummary)
    ensures
        s.kind == ProgramKind::Script,
        s.bytes == byte_len(source@),
        s.lines == line_count(source@),
        s.expected_frames == config.frame_count,
        s.expected_segments == config.segment_count,
        s.expected_worker_messages == config.worker_message_count,
{
    BenchmarkScriptSummary {
        kind: ProgramKind::Script,
        bytes: utf8_len(source),
        lines: count_lines(source),
        expected_frames: config.frame_count,
        expected_segments: config.segment_count,
        expected_worker_messages: config.worker_message_count,
    }
}

/// Aggregate benchmark metrics.
#[derive(Debug, Clone, Copy, PartialEq, Eq, Structural)]
pub struct BenchmarkAggregateMetrics {
    /// Wall-clock benchmark runtime in microseconds.
    pub wall_time_us: u128,
    /// VM instructions.
    pub vm_instructions: u64,
    /// VM function calls.
    pub vm_calls: u64,
    /// VM native calls.
    pub vm_native_calls: u64,
    /// VM bytecode calls.
    pub vm_bytecode_calls: u64,
    /// Event loop jobs executed.
    pub event_loop_jobs: u64,
    /// Microtasks executed.
    pub microtasks_executed: u64,
    /// Promise reactions executed.
    pub promise_reactions_executed: u64,
    /// Timers fired.
    pub timers_fired: u64,
    /// DOM mutations.
    pub dom_mutations: u64,
    /// DOM queries.
    pub dom_queries: u64,
    /// CSSOM mutations.
    pub cssom_mutations: u64,
    /// CSSOM computed style reads.
    pub computed_style_reads: u64,
    /// Fetch calls.
    pub fetch_calls: u64,
    /// Storage writes.
    pub storage_writes: u64,
    /// History mutations.
    pub history_mutations: u64,
    /// Media buffer appends.
    pub media_buffer_appends: u64,
    /// Media events.
    pub media_events: u64,
    /// Canvas commands recorded.
    pub canvas_commands_recorded: u64,
    /// Worker messages total.
    pub worker_messages_total: u64,
    /// Console line count.
    pub console_lines: usize,
    /// Whether event loop hit a configured limit.
    pub hit_limit: bool,
}

/// Raw counters read from the engine and its hosts after a benchmark run.
#[derive(Debug, Clone, Copy, PartialEq, Eq, Structural)]
pub struct BenchmarkMeasurements {
    /// Wall-clock runtime in microseconds.
    pub wall_time_us: u128,
    /// VM instructions.
    pub vm_instructions: u64,
    /// VM function calls.
    pub vm_calls: u64,
    /// VM native calls.
    pub vm_native_calls: u64,
    /// VM bytecode calls.
    pub vm_bytecode_calls: u64,
    /// Event loop jobs executed.
    pub event_loop_jobs: u64,
    /// Microtasks executed.
    pub microtasks_executed: u64,
    /// Promise reactions executed.
    pub promise_reactions_executed: u64,
    /// Timers fired.
    pub timers_fired: u64,
    /// The event loop hit a limit.
    pub hit_limit: bool,
    /// DOM text mutations.
    pub dom_text_mutations: u64,
    /// DOM attribute mutations.
    pub dom_attribute_mutations: u64,
    /// DOM value mutations.
    pub dom_value_mutations: u64,
    /// DOM structure mutations.
    pub dom_structure_mutations: u64,
    /// DOM queries.
    pub dom_queries: u64,
    /// CSSOM inline style writes.
    pub cssom_inline_writes: u64,
    /// CSSOM inline style removals.
    pub cssom_inline_removals: u64,
    /// CSSOM rules inserted.
    pub cssom_rules_inserted: u64,
    /// CSSOM rules deleted.
    pub cssom_rules_deleted: u64,
    /// Computed style reads.
    pub computed_style_reads: u64,
    /// Fetch calls.
    pub fetch_calls: u64,
    /// Storage writes.
    pub storage_writes: u64,
    /// History pushes.
    pub history_pushes: u64,
    /// History replacements.
    pub history_replaces: u64,
    /// Media buffer appends.
    pub media_buffer_appends: u64,
    /// Media events.
    pub media_events: u64,
    /// Canvas commands recorded.
    pub canvas_commands_recorded: u64,
    /// Messages posted to workers.
    pub messages_to_worker: u64,
    /// Messages posted back to the page.
    pub messages_to_main: u64,
}

/// The aggregate of a run: raw counters combined per signal with
/// saturating sums, and the console size.
pub open spec fn aggregate_spec(m: BenchmarkMeasurements, console_lines: nat) -> BenchmarkAggregateMetrics {
    BenchmarkAggregateMetrics {
        wall_time_us: m.wall_time_us,
        vm_instructions: m.vm_instructions,
        vm_calls: m.vm_calls,
        vm_native_calls: m.vm_native_calls,
        vm_bytecode_calls: m.vm_bytecode_calls,
        event_loop_jobs: m.event_loop_jobs,
        microtasks_executed: m.microtasks_executed,
        promise_reactions_executed: m.promise_reactions_executed,
        timers_fired: m.timers_fired,
        dom_mutations: sat_sum(
            sat_sum(sat_sum(m.dom_text_mutations, m.dom_attribute_mutations), m.dom_value_mutations),
            m.dom_structure_mutations,
        ),
        dom_queries: m.dom_queries,
        cssom_mutations: sat_sum(
            sat_sum(sat_sum(m.cssom_inline_writes, m.cssom_inline_removals), m.cssom_rules_inserted),
            m.cssom_rules_deleted,
        ),
        computed_style_reads: m.computed_style_reads,
        fetch_calls: m.fetch_calls,
        storage_writes: m.storage_writes,
        history_mutations: sat_sum(m.history_pushes, m.history_replaces),
        media_buffer_appends: m.media_buffer_appends,
        media_events: m.media_events,
        canvas_commands_recorded: m.canvas_commands_recorded,
        worker_messages_total: sat_sum(m.messages_to_worker, m.messages_to_main),
        console_lines: console_lines as usize,
        hit_limit: m.hit_limit,
    }
}

/// Aggregates what a benchmark run measured.
pub fn benchmark_aggregate(m: &BenchmarkMeasurements, console_lines: usize) -> (a: BenchmarkAggregateMetrics)
    ensures
        a == aggregate_spec(*m, console_lines as nat),
{
    BenchmarkAggregateMetrics {
        wall_time_us: m.wall_time_us,
        vm_instructions: m.vm_instructions,
        vm_calls: m.vm_calls,
        vm_native_calls: m.vm_native_calls,
        vm_bytecode_calls: m.vm_bytecode_calls,
        event_loop_jobs: m.event_loop_jobs,
        microtasks_executed: m.microtasks_executed,
        promise_reactions_executed: m.promise_reactions_executed,
        timers_fired: m.timers_fired,
        dom_mutations: m.dom_text_mutations.saturating_add(m.dom_attribute_mutations).saturating_add(
            m.dom_value_mutations,
        ).saturating_add(m.dom_structure_mutations),
        dom_queries: m.dom_queries,
        cssom_mutations: m.cssom_inline_writes.saturating_add(m.cssom_inline_removals).saturating_add(
            m.cssom_rules_inserted,
        ).saturating_add(m.cssom_rules_deleted),
        computed_style_reads: m.computed_style_reads,
        fetch_calls: m.fetch_calls,
        storage_writes: m.storage_writes,
        history_mutations: m.history_pushes.saturating_add(m.history_replaces),
        media_buffer_appends: m.media_buffer_appends,
        media_events: m.media_events,
        canvas_commands_recorded: m.canvas_commands_recorded,
        worker_messages_total: m.messages_to_worker.saturating_add(m.messages_to_main),
        console_lines,
        hit_limit: m.hit_limit,
    }
}

// ---------------------------------------------------------------------------
// Laws
// ---------------------------------------------------------------------------

/// Profiles scale the workload: frames, segments and recommendation cards
/// grow strictly from smoke to standard to stress.
pub proof fn lemma_profiles_scale()
    ensures
        profile_settings(BenchmarkProfile::Smoke).frame_count < profile_settings(
            BenchmarkProfile::Standard,
        ).frame_count,
        profile_settings(BenchmarkProfile::Standard).frame_count < profile_settings(
            BenchmarkProfile::Stress,
        ).frame_count,
        profile_settings(BenchmarkProfile::Smoke).segment_count < profile_settings(
            BenchmarkProfile::Standard,
        ).segment_count,
        profile_settings(BenchmarkProfile::Standard).segment_count < profile_settings(
            BenchmarkProfile::Stress,
        ).segment_count,
        profile_settings(BenchmarkProfile::Smoke).recommendation_count < profile_settings(
            BenchmarkProfile::Standard,
        ).recommendation_count,
        profile_settings(BenchmarkProfile::Standard).recommendation_count < profile_settings(
            BenchmarkProfile::Stress,
        ).recommendation_count,
{
}

/// Sanitizing is idempotent, and every profile is already sane.
pub proof fn lemma_benchmark_sanitize_idempotent(c: BenchmarkSettings, p: BenchmarkProfile)
    ensures
        sanitized_settings(sanitized_settings(c)) == sanitized_settings(c),
        sanitized_settings(profile_settings(p)) == profile_settings(p),
{
}

/// A sanitized workload always draws at least one frame and fetches at
/// least one segment, and its timers fire at most once a second apart.
pub proof fn lemma_sanitized_workload_bounds(c: BenchmarkSettings)
    ensures
        1 <= sanitized_settings(c).frame_count <= 10000,
        1 <= sanitized_settings(c).segment_count <= 1000,
        sanitized_settings(c).timer_interval_ms <= 1000,
        sanitized_settings(c).instruction_budget >= 1000,
        sanitized_settings(c).max_jobs_per_run >= 128,
{
}

} // verus!
