//! Synthetic site compatibility harness: Google-, GitHub- and
//! Wikipedia-style workloads.
//!
//! Each suite is a generated script that exercises the browser surface
//! modern sites expect (DOM construction, CSSOM mutation, fetch, storage,
//! history, timers, microtasks, workers, cookies). The harness sizes the
//! workloads by profile, hands each script to a runner, and scores what
//! the runner measured against per-suite expectations.

use crate::event_loop::EventLoopConfig;
use crate::security::{clone_strings, string_views};
use crate::text::{append_str, byte_len, count_lines, decimal, decimal_string, line_count, owned, utf8_len};
use crate::vm::VmConfig;
use vstd::prelude::*;

verus! {

broadcast use vstd::string::group_string_axioms;

// ---------------------------------------------------------------------------
// Profiles, suites and signals
// ---------------------------------------------------------------------------

/// Compatibility workload profile.
#[derive(Debug, Clone, Copy, PartialEq, Eq, Structural)]
pub enum SiteCompatibilityProfile {
    /// Fast smoke profile for CI and local checks.
    Smoke,
    /// Default development profile.
    Standard,
    /// Heavier stress profile for regression studies.
    Stress,
}

impl Default for SiteCompatibilityProfile {
    fn default() -> (p: Self)
        ensures
            p == SiteCompatibilityProfile::Standard,
    {
        SiteCompatibilityProfile::Standard
    }
}

/// Stable id of a profile.
pub open spec fn profile_name(p: SiteCompatibilityProfile) -> Seq<char> {
    match p {
        SiteCompatibilityProfile::Smoke => "smoke"@,
        SiteCompatibilityProfile::Standard => "standard"@,
        SiteCompatibilityProfile::Stress => "stress"@,
    }
}

impl SiteCompatibilityProfile {
    /// Returns a lowercase stable id.
    pub fn as_str(self) -> (r: &'static str)
        ensures
            r@ == profile_name(self),
    {
        match self {
            SiteCompatibilityProfile::Smoke => "smoke",
            SiteCompatibilityProfile::Standard => "standard",
            SiteCompatibilityProfile::Stress => "stress",
        }
    }
}

/// Named synthetic compatibility suite.
#[derive(Debug, Clone, Copy, PartialEq, Eq, PartialOrd, Ord, Hash, Structural)]
pub enum SiteCompatibilitySuite {
    /// Search portal workload with suggestions, results, URL/history, and timers.
    GoogleSearch,
    /// Repository page workload with API calls, file tree, issues, and worker messages.
    GitHubRepository,
    /// Article page workload with article layout, TOC, infobox, cookies, and references.
    WikipediaArticle,
}

/// All suites in their order.
pub open spec fn all_suites() -> Seq<SiteCompatibilitySuite> {
    seq![
        SiteCompatibilitySuite::GoogleSearch,
        SiteCompatibilitySuite::GitHubRepository,
        SiteCompatibilitySuite::WikipediaArticle,
    ]
}

/// Stable id of a suite.
pub open spec fn suite_id(s: SiteCompatibilitySuite) -> Seq<char> {
    match s {
        SiteCompatibilitySuite::GoogleSearch => "google-search-synthetic"@,
        SiteCompatibilitySuite::GitHubRepository => "github-repository-synthetic"@,
        SiteCompatibilitySuite::WikipediaArticle => "wikipedia-article-synthetic"@,
    }
}

/// Title of a suite.
pub open spec fn suite_title(s: SiteCompatibilitySuite) -> Seq<char> {
    match s {
        SiteCompatibilitySuite::GoogleSearch => "Google Search synthetic suite"@,
        SiteCompatibilitySuite::GitHubRepository => "GitHub Repository synthetic suite"@,
        SiteCompatibilitySuite::WikipediaArticle => "Wikipedia Article synthetic suite"@,
    }
}

/// Target URL of a suite.
pub open spec fn suite_url(s: SiteCompatibilitySuite) -> Seq<char> {
    match s {
        SiteCompatibilitySuite::GoogleSearch => "https://compat.google.test/search?q=sylphos"@,
        SiteCompatibilitySuite::GitHubRepository => "https://compat.github.test/MaheshChandraTeja/Sylphos"@,
        SiteCompatibilitySuite::WikipediaArticle => "https://compat.wikipedia.test/wiki/Sylphos"@,
    }
}

/// Description of a suite.
pub open spec fn suite_description(s: SiteCompatibilitySuite) -> Seq<char> {
    match s {
        SiteCompatibilitySuite::GoogleSearch => "Search box, suggestion fetches, results rendering, URL/history state, storage, timers, and microtasks."@,
        SiteCompatibilitySuite::GitHubRepository => "Repository header, file tree, code rows, issue cards, REST-like API fetches, worker diff analysis, and CSSOM mutations."@,
        SiteCompatibilitySuite::WikipediaArticle => "Article shell, infobox, table of contents, section rendering, reference fetches, cookie/storage state, and periodic layout work."@,
    }
}

impl SiteCompatibilitySuite {
    /// All suites in deterministic order.
    pub const ALL: [SiteCompatibilitySuite; 3] = [
        SiteCompatibilitySuite::GoogleSearch,
        SiteCompatibilitySuite::GitHubRepository,
        SiteCompatibilitySuite::WikipediaArticle,
    ];

    /// Stable suite id.
    pub fn id(self) -> (r: &'static str)
        ensures
            r@ == suite_id(self),
    {
        match self {
            SiteCompatibilitySuite::GoogleSearch => "google-search-synthetic",
            SiteCompatibilitySuite::GitHubRepository => "github-repository-synthetic",
            SiteCompatibilitySuite::WikipediaArticle => "wikipedia-article-synthetic",
        }
    }

    /// Human-readable title.
    pub fn title(self) -> (r: &'static str)
        ensures
            r@ == suite_title(self),
    {
        match self {
            SiteCompatibilitySuite::GoogleSearch => "Google Search synthetic suite",
            SiteCompatibilitySuite::GitHubRepository => "GitHub Repository synthetic suite",
            SiteCompatibilitySuite::WikipediaArticle => "Wikipedia Article synthetic suite",
        }
    }

    /// Deterministic target URL.
    pub fn target_url(self) -> (r: &'static str)
        ensures
            r@ == suite_url(self),
    {
        match self {
            SiteCompatibilitySuite::GoogleSearch => "https://compat.google.test/search?q=sylphos",
            SiteCompatibilitySuite::GitHubRepository => "https://compat.github.test/MaheshChandraTeja/Sylphos",
            SiteCompatibilitySuite::WikipediaArticle => "https://compat.wikipedia.test/wiki/Sylphos",
        }
    }

    /// Short description.
    pub fn description(self) -> (r: &'static str)
        ensures
            r@ == suite_description(self),
    {
        match self {
            SiteCompatibilitySuite::GoogleSearch => "Search box, suggestion fetches, results rendering, URL/history state, storage, timers, and microtasks.",
            SiteCompatibilitySuite::GitHubRepository => "Repository header, file tree, code rows, issue cards, REST-like API fetches, worker diff analysis, and CSSOM mutations.",
            SiteCompatibilitySuite::WikipediaArticle => "Article shell, infobox, table of contents, section rendering, reference fetches, cookie/storage state, and periodic layout work.",
        }
    }
}

/// Signal measured by the harness.
#[derive(Debug, Clone, Copy, PartialEq, Eq, PartialOrd, Ord, Hash, Structural)]
pub enum SiteCompatibilitySignal {
    /// VM instruction count.
    VmInstructions,
    /// Event-loop jobs executed.
    EventLoopJobs,
    /// Microtasks executed.
    Microtasks,
    /// Timers fired.
    Timers,
    /// DOM mutations.
    DomMutations,
    /// DOM queries.
    DomQueries,
    /// CSSOM mutations.
    CssomMutations,
    /// Computed style reads.
    ComputedStyleReads,
    /// Fetch calls.
    FetchCalls,
    /// Storage writes.
    StorageWrites,
    /// Cookie writes.
    CookieWrites,
    /// History mutations.
    HistoryMutations,
    /// URL helper objects.
    UrlObjects,
    /// Canvas commands.
    CanvasCommands,
    /// Media events.
    MediaEvents,
    /// Worker messages.
    WorkerMessages,
    /// Console lines emitted.
    ConsoleLines,
}

/// Stable id of a signal.
pub open spec fn signal_name(s: SiteCompatibilitySignal) -> Seq<char> {
    match s {
        SiteCompatibilitySignal::VmInstructions => "vm_instructions"@,
        SiteCompatibilitySignal::EventLoopJobs => "event_loop_jobs"@,
        SiteCompatibilitySignal::Microtasks => "microtasks"@,
        SiteCompatibilitySignal::Timers => "timers"@,
        SiteCompatibilitySignal::DomMutations => "dom_mutations"@,
        SiteCompatibilitySignal::DomQueries => "dom_queries"@,
        SiteCompatibilitySignal::CssomMutations => "cssom_mutations"@,
        SiteCompatibilitySignal::ComputedStyleReads => "computed_style_reads"@,
        SiteCompatibilitySignal::FetchCalls => "fetch_calls"@,
        SiteCompatibilitySignal::StorageWrites => "storage_writes"@,
        SiteCompatibilitySignal::CookieWrites => "cookie_writes"@,
        SiteCompatibilitySignal::HistoryMutations => "history_mutations"@,
        SiteCompatibilitySignal::UrlObjects => "url_objects"@,
        SiteCompatibilitySignal::CanvasCommands => "canvas_commands"@,
        SiteCompatibilitySignal::MediaEvents => "media_events"@,
        SiteCompatibilitySignal::WorkerMessages => "worker_messages"@,
        SiteCompatibilitySignal::ConsoleLines => "console_lines"@,
    }
}

impl SiteCompatibilitySignal {
    /// Stable signal id.
    pub fn as_str(self) -> (r: &'static str)
        ensures
            r@ == signal_name(self),
    {
        match self {
            SiteCompatibilitySignal::VmInstructions => "vm_instructions",
            SiteCompatibilitySignal::EventLoopJobs => "event_loop_jobs",
            SiteCompatibilitySignal::Microtasks => "microtasks",
            SiteCompatibilitySignal::Timers => "timers",
            SiteCompatibilitySignal::DomMutations => "dom_mutations",
            SiteCompatibilitySignal::DomQueries => "dom_queries",
            SiteCompatibilitySignal::CssomMutations => "cssom_mutations",
            SiteCompatibilitySignal::ComputedStyleReads => "computed_style_reads",
            SiteCompatibilitySignal::FetchCalls => "fetch_calls",
            SiteCompatibilitySignal::StorageWrites => "storage_writes",
            SiteCompatibilitySignal::CookieWrites => "cookie_writes",
            SiteCompatibilitySignal::HistoryMutations => "history_mutations",
            SiteCompatibilitySignal::UrlObjects => "url_objects",
            SiteCompatibilitySignal::CanvasCommands => "canvas_commands",
            SiteCompatibilitySignal::MediaEvents => "media_events",
            SiteCompatibilitySignal::WorkerMessages => "worker_messages",
            SiteCompatibilitySignal::ConsoleLines => "console_lines",
        }
    }
}

// ---------------------------------------------------------------------------
// Configuration
// ---------------------------------------------------------------------------

/// Harness configuration.
#[derive(Debug, Clone, PartialEq, Eq)]
pub struct SiteCompatibilityHarnessConfig {
    /// Profile used to size the synthetic workloads.
    pub profile: SiteCompatibilityProfile,
    /// Suites to run. Empty means all suites.
    pub suites: Vec<SiteCompatibilitySuite>,
    /// DOM/content loop size per suite.
    pub dom_nodes_per_suite: u32,
    /// Style mutation loop size.
    pub style_mutations_per_suite: u32,
    /// Worker messages per suite.
    pub worker_messages_per_suite: u32,
    /// Timer ticks per suite.
    pub timer_ticks_per_suite: u32,
    /// Canvas draw iterations per suite.
    pub canvas_draws_per_suite: u32,
    /// VM instruction budget.
    pub instruction_budget: u64,
    /// VM call depth.
    pub max_call_depth: usize,
    /// Event-loop job budget.
    pub max_jobs_per_run: u64,
    /// Whether the synthetic event loop should auto-advance timers.
    pub auto_advance_time: bool,
}

/// Model of a harness configuration.
pub struct HarnessConfigView {
    pub profile: SiteCompatibilityProfile,
    pub suites: Seq<SiteCompatibilitySuite>,
    pub dom_nodes_per_suite: u32,
    pub style_mutations_per_suite: u32,
    pub worker_messages_per_suite: u32,
    pub timer_ticks_per_suite: u32,
    pub canvas_draws_per_suite: u32,
    pub instruction_budget: u64,
    pub max_call_depth: usize,
    pub max_jobs_per_run: u64,
    pub auto_advance_time: bool,
}

impl View for SiteCompatibilityHarnessConfig {
    type V = HarnessConfigView;

    open spec fn view(&self) -> HarnessConfigView {
        HarnessConfigView {
            profile: self.profile,
            suites: self.suites@,
            dom_nodes_per_suite: self.dom_nodes_per_suite,
            style_mutations_per_suite: self.style_mutations_per_suite,
            worker_messages_per_suite: self.worker_messages_per_suite,
            timer_ticks_per_suite: self.timer_ticks_per_suite,
            canvas_draws_per_suite: self.canvas_draws_per_suite,
            instruction_budget: self.instruction_budget,
            max_call_depth: self.max_call_depth,
            max_jobs_per_run: self.max_jobs_per_run,
            auto_advance_time: self.auto_advance_time,
        }
    }
}

/// The configuration of a profile.
pub open spec fn profile_config(p: SiteCompatibilityProfile) -> HarnessConfigView {
    match p {
        SiteCompatibilityProfile::Smoke => HarnessConfigView {
            profile: p,
            suites: all_suites(),
            dom_nodes_per_suite: 4,
            style_mutations_per_suite: 3,
            worker_messages_per_suite: 2,
            timer_ticks_per_suite: 2,
            canvas_draws_per_suite: 2,
            instruction_budget: 250000,
            max_call_depth: 128,
            max_jobs_per_run: 2500,
            auto_advance_time: true,
        },
        SiteCompatibilityProfile::Standard => HarnessConfigView {
            profile: p,
            suites: all_suites(),
            dom_nodes_per_suite: 12,
            style_mutations_per_suite: 8,
            worker_messages_per_suite: 4,
            timer_ticks_per_suite: 4,
            canvas_draws_per_suite: 4,
            instruction_budget: 1250000,
            max_call_depth: 256,
            max_jobs_per_run: 15000,
            auto_advance_time: true,
        },
        SiteCompatibilityProfile::Stress => HarnessConfigView {
            profile: p,
            suites: all_suites(),
            dom_nodes_per_suite: 36,
            style_mutations_per_suite: 24,
            worker_messages_per_suite: 12,
            timer_ticks_per_suite: 8,
            canvas_draws_per_suite: 12,
            instruction_budget: 5000000,
            max_call_depth: 512,
            max_jobs_per_run: 75000,
            auto_advance_time: true,
        },
    }
}

/// `x` held within `[lo, hi]`.
pub open spec fn clamp_spec(x: int, lo: int, hi: int) -> int {
    if x < lo {
        lo
    } else if x > hi {
        hi
    } else {
        x
    }
}

/// The suites of a list in ascending order, each once.
pub open spec fn suite_set_list(s: Seq<SiteCompatibilitySuite>) -> Seq<SiteCompatibilitySuite> {
    (if s.contains(SiteCompatibilitySuite::GoogleSearch) {
        seq![SiteCompatibilitySuite::GoogleSearch]
    } else {
        Seq::empty()
    }) + (if s.contains(SiteCompatibilitySuite::GitHubRepository) {
        seq![SiteCompatibilitySuite::GitHubRepository]
    } else {
        Seq::empty()
    }) + (if s.contains(SiteCompatibilitySuite::WikipediaArticle) {
        seq![SiteCompatibilitySuite::WikipediaArticle]
    } else {
        Seq::empty()
    })
}

/// A sanitized configuration: all suites when none is named, suites sorted
/// and deduplicated, loop sizes clamped and budgets raised to their floors.
pub open spec fn sanitized_config(c: HarnessConfigView) -> HarnessConfigView {
    HarnessConfigView {
        suites: if c.suites.len() == 0 {
            all_suites()
        } else {
            suite_set_list(c.suites)
        },
        dom_nodes_per_suite: clamp_spec(c.dom_nodes_per_suite as int, 1, 5000) as u32,
        style_mutations_per_suite: clamp_spec(c.style_mutations_per_suite as int, 0, 10000) as u32,
        worker_messages_per_suite: clamp_spec(c.worker_messages_per_suite as int, 0, 10000) as u32,
        timer_ticks_per_suite: clamp_spec(c.timer_ticks_per_suite as int, 0, 10000) as u32,
        canvas_draws_per_suite: clamp_spec(c.canvas_draws_per_suite as int, 0, 10000) as u32,
        instruction_budget: if c.instruction_budget < 10000 {
            10000
        } else {
            c.instruction_budget
        },
        max_call_depth: if c.max_call_depth < 32 {
            32
        } else {
            c.max_call_depth
        },
        max_jobs_per_run: if c.max_jobs_per_run < 128 {
            128
        } else {
            c.max_jobs_per_run
        },
        ..c
    }
}

/// `x` held within `[lo, hi]`.
pub fn clamp_u32(x: u32, lo: u32, hi: u32) -> (r: u32)
    requires
        lo <= hi,
    ensures
        r == clamp_spec(x as int, lo as int, hi as int),
{
    if x < lo {
        lo
    } else if x > hi {
        hi
    } else {
        x
    }
}

fn all_suites_vec() -> (v: Vec<SiteCompatibilitySuite>)
    ensures
        v@ == all_suites(),
{
    let v = vec![
        SiteCompatibilitySuite::GoogleSearch,
        SiteCompatibilitySuite::GitHubRepository,
        SiteCompatibilitySuite::WikipediaArticle,
    ];
    assert(v@ =~= all_suites());
    v
}

fn contains_suite(v: &Vec<SiteCompatibilitySuite>, s: SiteCompatibilitySuite) -> (r: bool)
    ensures
        r == v@.contains(s),
{
    let mut i: usize = 0;
    while i < v.len()
        invariant
            i <= v@.len(),
            forall|j: int| 0 <= j < i ==> v@[j] != s,
        decreases v.len() - i,
    {
        if v[i] == s {
            assert(v@[i as int] == s);
            return true;
        }
        i = i + 1;
    }
    false
}

fn suites_in_order(v: &Vec<SiteCompatibilitySuite>) -> (r: Vec<SiteCompatibilitySuite>)
    ensures
        r@ == suite_set_list(v@),
{
    let g = contains_suite(v, SiteCompatibilitySuite::GoogleSearch);
    let h = contains_suite(v, SiteCompatibilitySuite::GitHubRepository);
    let w = contains_suite(v, SiteCompatibilitySuite::WikipediaArticle);
    let mut r: Vec<SiteCompatibilitySuite> = Vec::new();
    if g {
        r.push(SiteCompatibilitySuite::GoogleSearch);
    }
    if h {
        r.push(SiteCompatibilitySuite::GitHubRepository);
    }
    if w {
        r.push(SiteCompatibilitySuite::WikipediaArticle);
    }
    assert(r@ =~= suite_set_list(v@));
    r
}

impl Default for SiteCompatibilityHarnessConfig {
    fn default() -> (c: Self)
        ensures
            c@ == profile_config(SiteCompatibilityProfile::Standard),
    {
        Self::for_profile(SiteCompatibilityProfile::Standard)
    }
}

impl SiteCompatibilityHarnessConfig {
    /// Builds a profile-sized config over all suites.
    pub fn for_profile(profile: SiteCompatibilityProfile) -> (c: Self)
        ensures
            c@ == profile_config(profile),
    {
        match profile {
            SiteCompatibilityProfile::Smoke => Self {
                profile,
                suites: all_suites_vec(),
                dom_nodes_per_suite: 4,
                style_mutations_per_suite: 3,
                worker_messages_per_suite: 2,
                timer_ticks_per_suite: 2,
                canvas_draws_per_suite: 2,
                instruction_budget: 250_000,
                max_call_depth: 128,
                max_jobs_per_run: 2_500,
                auto_advance_time: true,
            },
            SiteCompatibilityProfile::Standard => Self {
                profile,
                suites: all_suites_vec(),
                dom_nodes_per_suite: 12,
                style_mutations_per_suite: 8,
                worker_messages_per_suite: 4,
                timer_ticks_per_suite: 4,
                canvas_draws_per_suite: 4,
                instruction_budget: 1_250_000,
                max_call_depth: 256,
                max_jobs_per_run: 15_000,
                auto_advance_time: true,
            },
            SiteCompatibilityProfile::Stress => Self {
                profile,
                suites: all_suites_vec(),
                dom_nodes_per_suite: 36,
                style_mutations_per_suite: 24,
                worker_messages_per_suite: 12,
                timer_ticks_per_suite: 8,
                canvas_draws_per_suite: 12,
                instruction_budget: 5_000_000,
                max_call_depth: 512,
                max_jobs_per_run: 75_000,
                auto_advance_time: true,
            },
        }
    }

    /// Returns a sanitized config.
    pub fn sanitized(self) -> (c: Self)
        ensures
            c@ == sanitized_config(self@),
    {
        let suites = if self.suites.len() == 0 {
            all_suites_vec()
        } else {
            suites_in_order(&self.suites)
        };
        Self {
            profile: self.profile,
            suites,
            dom_nodes_per_suite: clamp_u32(self.dom_nodes_per_suite, 1, 5_000),
            style_mutations_per_suite: clamp_u32(self.style_mutations_per_suite, 0, 10_000),
            worker_messages_per_suite: clamp_u32(self.worker_messages_per_suite, 0, 10_000),
            timer_ticks_per_suite: clamp_u32(self.timer_ticks_per_suite, 0, 10_000),
            canvas_draws_per_suite: clamp_u32(self.canvas_draws_per_suite, 0, 10_000),
            instruction_budget: if self.instruction_budget < 10_000 {
                10_000
            } else {
                self.instruction_budget
            },
            max_call_depth: if self.max_call_depth < 32 {
                32
            } else {
                self.max_call_depth
            },
            max_jobs_per_run: if self.max_jobs_per_run < 128 {
                128
            } else {
                self.max_jobs_per_run
            },
            auto_advance_time: self.auto_advance_time,
        }
    }

    /// VM configuration.
    pub fn vm_config(&self) -> (c: VmConfig)
        ensures
            c.instruction_budget == self.instruction_budget,
            c.max_call_depth == self.max_call_depth,
    {
        VmConfig { instruction_budget: self.instruction_budget, max_call_depth: self.max_call_depth }
    }

    /// Event-loop configuration: the job budget also bounds timer advances.
    pub fn event_loop_config(&self) -> (c: EventLoopConfig)
        ensures
            c.max_jobs_per_run == self.max_jobs_per_run,
            c.max_timer_advances == self.max_jobs_per_run,
            c.auto_advance_time == self.auto_advance_time,
    {
        EventLoopConfig {
            max_jobs_per_run: self.max_jobs_per_run,
            max_timer_advances: self.max_jobs_per_run,
            auto_advance_time: self.auto_advance_time,
        }
    }
}

// ---------------------------------------------------------------------------
// Generated scripts
// ---------------------------------------------------------------------------

/// Text piece 0 of the search-page script template.
pub const GOOGLE_0: &'static str = r##"
document.title = "Google Synthetic Search";
history.replaceState({}, "", "/search?q=sylphos");
localStorage.setItem("google.query", "sylphos");
sessionStorage.setItem("google.session", "compat");

document.styleSheets[0].insertRule(".search-shell { color: #202124; background-color: #ffffff; }", 0);
document.styleSheets[0].insertRule(".result-card { color: #1a0dab; font-size: 14px; }", 1);
document.styleSheets[0].insertRule(".suggestion { color: #3c4043; }", 2);

const shell = document.createElement("main");
shell.id = "search-shell";
shell.className = "search-shell";
document.body.appendChild(shell);

const logo = document.createElement("h1");
logo.textContent = "Sylphos Search";
shell.appendChild(logo);

const form = document.createElement("form");
form.id = "search-form";
shell.appendChild(form);

const input = document.createElement("input");
input.id = "q";
input.value = "sylphos";
input.setAttribute("aria-label", "Search");
form.appendChild(input);

const button = document.createElement("button");
button.textContent = "Search";
form.appendChild(button);

const suggestions = document.createElement("section");
suggestions.id = "suggestions";
shell.appendChild(suggestions);

const results = document.createElement("section");
results.id = "results";
shell.appendChild(results);

let resultIndex = 0;
while (resultIndex < "##;
/// Text piece 1 of the search-page script template.
pub const GOOGLE_1: &'static str = r##") {
    const card = document.createElement("article");
    card.className = "result-card";
    card.textContent = "Synthetic result " + resultIndex + " for Sylphos";
    results.appendChild(card);
    resultIndex = resultIndex + 1;
}

const worker = new Worker("google-ranking-worker.js");
worker.onmessage = function (event) {
    console.log("google-worker", event.data);
};
worker.postMessage("sylphos");

fetch("/complete/search?q=sylphos").then(function (response) {
    response.text().then(function (text) {
        const item = document.createElement("p");
        item.className = "suggestion";
        item.textContent = text;
        suggestions.appendChild(item);
        console.log("suggestions", text);
    });
});

fetch("/search?q=sylphos").then(function (response) {
    response.text().then(function (text) {
        localStorage.setItem("google.results", text);
        console.log("results", text);
    });
});

let styleIndex = 0;
while (styleIndex < "##;
/// Text piece 2 of the search-page script template.
pub const GOOGLE_2: &'static str = r##") {
    logo.style.fontSize = (24 + styleIndex) + "px";
    logo.style.color = "#202124";
    const computed = getComputedStyle(logo).color;
    if (styleIndex == 0) {
        console.log("google-computed", computed);
    }
    styleIndex = styleIndex + 1;
}

let tick = 0;
const timer = setInterval(function () {
    tick = tick + 1;
    input.value = "sylphos " + tick;
    if (tick >= "##;
/// Text piece 3 of the search-page script template.
pub const GOOGLE_3: &'static str = r##") {
        clearInterval(timer);
        console.log("google-timers", tick);
    }
}, 4);

queueMicrotask(function () {
    console.log("google-microtask", document.title);
});

console.log("google-suite-start", document.title);
"##;

/// Text piece 0 of the repository-page script template.
pub const GITHUB_0: &'static str = r##"
document.title = "GitHub Synthetic Repository";
history.pushState({}, "", "/MaheshChandraTeja/Sylphos");
localStorage.setItem("github.repo", "MaheshChandraTeja/Sylphos");

document.styleSheets[0].insertRule(".repo-shell { color: #24292f; background-color: #ffffff; }", 0);
document.styleSheets[0].insertRule(".file-row { font-family: monospace; font-size: 13px; }", 1);
document.styleSheets[0].insertRule(".issue-card { border: 1px solid #d0d7de; }", 2);

const shell = document.createElement("section");
shell.id = "repo-shell";
shell.className = "repo-shell";
document.body.appendChild(shell);

const header = document.createElement("h1");
header.textContent = "MaheshChandraTeja / Sylphos";
shell.appendChild(header);

const tabs = document.createElement("nav");
tabs.id = "repo-tabs";
tabs.textContent = "Code Issues Pull requests Actions";
shell.appendChild(tabs);

const fileTree = document.createElement("section");
fileTree.id = "file-tree";
shell.appendChild(fileTree);

let fileIndex = 0;
while (fileIndex < "##;
/// Text piece 1 of the repository-page script template.
pub const GITHUB_1: &'static str = r##") {
    const row = document.createElement("div");
    row.className = "file-row";
    row.textContent = "crates/module_" + fileIndex + ".rs";
    fileTree.appendChild(row);
    fileIndex = fileIndex + 1;
}

const code = document.createElement("pre");
code.id = "code-view";
code.textContent = "pub fn module_45() { /* synthetic compatibility */ }";
shell.appendChild(code);

const selected = document.querySelector("#code-view");
if (selected) {
    selected.setAttribute("data-selected", "true");
}

const params = new URLSearchParams("tab=code&suite=compat");
localStorage.setItem("github.tab", params.get("tab"));

fetch("/api/repos/sylphos").then(function (response) {
    response.text().then(function (text) {
        header.textContent = text;
        console.log("repo", text);
    });
});

fetch("/api/repos/sylphos/files").then(function (response) {
    response.text().then(function (text) {
        sessionStorage.setItem("github.files", text);
        console.log("files", text);
    });
});

fetch("/api/repos/sylphos/issues").then(function (response) {
    response.text().then(function (text) {
        const issue = document.createElement("article");
        issue.className = "issue-card";
        issue.textContent = text;
        shell.appendChild(issue);
        console.log("issues", text);
    });
});

const worker = new Worker("github-diff-worker.js");
worker.onmessage = function (event) {
    console.log("github-worker", event.data);
};

let workerIndex = 0;
while (workerIndex < "##;
/// Text piece 2 of the repository-page script template.
pub const GITHUB_2: &'static str = r##") {
    worker.postMessage("diff-" + workerIndex);
    workerIndex = workerIndex + 1;
}

let styleIndex = 0;
while (styleIndex < "##;
/// Text piece 3 of the repository-page script template.
pub const GITHUB_3: &'static str = r##") {
    code.style.fontSize = (12 + styleIndex) + "px";
    const computed = getComputedStyle(code).fontSize;
    if (styleIndex == 0) {
        console.log("github-computed", computed);
    }
    styleIndex = styleIndex + 1;
}

queueMicrotask(function () {
    console.log("github-microtask", document.title);
});

console.log("github-suite-start", document.title);
"##;

/// Text piece 0 of the article-page script template.
pub const WIKI_0: &'static str = r##"
document.title = "Wikipedia Synthetic Article";
history.replaceState({}, "", "/wiki/Sylphos");
sessionStorage.setItem("wiki.article", "Sylphos");
document.cookie = "wikiSession=compat; path=/";

document.styleSheets[0].insertRule(".mw-parser-output { color: #202122; }", 0);
document.styleSheets[0].insertRule(".infobox { float: right; border: 1px solid #a2a9b1; }", 1);
document.styleSheets[0].insertRule(".toc { border: 1px solid #a2a9b1; }", 2);

const article = document.createElement("article");
article.id = "mw-content-text";
article.className = "mw-parser-output";
document.body.appendChild(article);

const heading = document.createElement("h1");
heading.textContent = "Sylphos";
article.appendChild(heading);

const infobox = document.createElement("aside");
infobox.className = "infobox";
infobox.textContent = "Synthetic browser engine";
article.appendChild(infobox);

const toc = document.createElement("nav");
toc.className = "toc";
toc.textContent = "Contents";
article.appendChild(toc);

let sectionIndex = 0;
while (sectionIndex < "##;
/// Text piece 1 of the article-page script template.
pub const WIKI_1: &'static str = r##") {
    const section = document.createElement("section");
    section.className = "mw-section";
    const h2 = document.createElement("h2");
    h2.textContent = "Section " + sectionIndex;
    const p = document.createElement("p");
    p.textContent = "Synthetic encyclopedic paragraph " + sectionIndex;
    section.appendChild(h2);
    section.appendChild(p);
    article.appendChild(section);
    sectionIndex = sectionIndex + 1;
}

const canvas = new HTMLCanvasElement();
canvas.width = 320;
canvas.height = 120;
article.appendChild(canvas);
const ctx = canvas.getContext("2d");

let draw = 0;
while (draw < "##;
/// Text piece 2 of the article-page script template.
pub const WIKI_2: &'static str = r##") {
    ctx.fillStyle = "#f8f9fa";
    ctx.fillRect(0, 0, 320, 120);
    ctx.fillStyle = "#202122";
    ctx.fillText("Wiki draw " + draw, 12, 24 + draw);
    draw = draw + 1;
}

fetch("/api/rest_v1/page/summary/Sylphos").then(function (response) {
    response.text().then(function (text) {
        const summary = document.createElement("p");
        summary.textContent = text;
        article.appendChild(summary);
        localStorage.setItem("wiki.summary", text);
        console.log("summary", text);
    });
});

fetch("/w/api.php?action=parse&page=Sylphos&prop=sections").then(function (response) {
    response.text().then(function (text) {
        toc.textContent = text;
        console.log("sections", text);
    });
});

const worker = new Worker("wiki-reference-worker.js");
worker.onmessage = function (event) {
    console.log("wiki-worker", event.data);
};
worker.postMessage("references");

let styleIndex = 0;
while (styleIndex < "##;
/// Text piece 3 of the article-page script template.
pub const WIKI_3: &'static str = r##") {
    heading.style.fontSize = (28 + styleIndex) + "px";
    const computed = getComputedStyle(heading).fontSize;
    if (styleIndex == 0) {
        console.log("wiki-computed", computed);
    }
    styleIndex = styleIndex + 1;
}

let tick = 0;
const timer = setInterval(function () {
    tick = tick + 1;
    infobox.textContent = "Synthetic browser engine " + tick;
    if (tick >= "##;
/// Text piece 4 of the article-page script template.
pub const WIKI_4: &'static str = r##") {
        clearInterval(timer);
        console.log("wiki-timers", tick);
    }
}, 5);

queueMicrotask(function () {
    console.log("wiki-microtask", document.title);
});

console.log("wikipedia-suite-start", document.title);
"##;

/// The Google-style script.
pub open spec fn google_script(dom_nodes: u32, style_mutations: u32, timer_ticks: u32) -> Seq<char> {
    GOOGLE_0@ + decimal(dom_nodes as nat) + GOOGLE_1@ + decimal(style_mutations as nat) + GOOGLE_2@
        + decimal(timer_ticks as nat) + GOOGLE_3@
}

/// The GitHub-style script.
pub open spec fn github_script(dom_nodes: u32, worker_messages: u32, style_mutations: u32) -> Seq<char> {
    GITHUB_0@ + decimal(dom_nodes as nat) + GITHUB_1@ + decimal(worker_messages as nat) + GITHUB_2@
        + decimal(style_mutations as nat) + GITHUB_3@
}

/// The Wikipedia-style script.
pub open spec fn wiki_script(dom_nodes: u32, canvas_draws: u32, style_mutations: u32, timer_ticks: u32) -> Seq<char> {
    WIKI_0@ + decimal(dom_nodes as nat) + WIKI_1@ + decimal(canvas_draws as nat) + WIKI_2@
        + decimal(style_mutations as nat) + WIKI_3@ + decimal(timer_ticks as nat) + WIKI_4@
}

/// At least one.
pub open spec fn at_least_one(x: u32) -> u32 {
    if x < 1 {
        1
    } else {
        x
    }
}

/// The generated script of a suite; timer ticks are at least one.
pub open spec fn site_script(suite: SiteCompatibilitySuite, c: HarnessConfigView) -> Seq<char> {
    match suite {
        SiteCompatibilitySuite::GoogleSearch => google_script(
            c.dom_nodes_per_suite,
            c.style_mutations_per_suite,
            at_least_one(c.timer_ticks_per_suite),
        ),
        SiteCompatibilitySuite::GitHubRepository => github_script(
            c.dom_nodes_per_suite,
            c.worker_messages_per_suite,
            c.style_mutations_per_suite,
        ),
        SiteCompatibilitySuite::WikipediaArticle => wiki_script(
            c.dom_nodes_per_suite,
            c.canvas_draws_per_suite,
            c.style_mutations_per_suite,
            at_least_one(c.timer_ticks_per_suite),
        ),
    }
}

/// Appends the decimal form of a number.
pub fn append_decimal(r: &mut String, n: u64)
    ensures
        final(r)@ == old(r)@ + decimal(n as nat),
{
    let d = decimal_string(n);
    append_str(r, d.as_str());
}

/// Builds the generated JavaScript source for a suite.
pub fn build_site_compatibility_script(
    suite: SiteCompatibilitySuite,
    config: &SiteCompatibilityHarnessConfig,
) -> (s: String)
    ensures
        s@ == site_script(suite, config@),
{
    let ticks = if config.timer_ticks_per_suite < 1 {
        1
    } else {
        config.timer_ticks_per_suite
    };
    match suite {
        SiteCompatibilitySuite::GoogleSearch => {
            let mut s = owned(GOOGLE_0);
            append_decimal(&mut s, config.dom_nodes_per_suite as u64);
            append_str(&mut s, GOOGLE_1);
            append_decimal(&mut s, config.style_mutations_per_suite as u64);
            append_str(&mut s, GOOGLE_2);
            append_decimal(&mut s, ticks as u64);
            append_str(&mut s, GOOGLE_3);
            s
        },
        SiteCompatibilitySuite::GitHubRepository => {
            let mut s = owned(GITHUB_0);
            append_decimal(&mut s, config.dom_nodes_per_suite as u64);
            append_str(&mut s, GITHUB_1);
            append_decimal(&mut s, config.worker_messages_per_suite as u64);
            append_str(&mut s, GITHUB_2);
            append_decimal(&mut s, config.style_mutations_per_suite as u64);
            append_str(&mut s, GITHUB_3);
            s
        },
        SiteCompatibilitySuite::WikipediaArticle => {
            let mut s = owned(WIKI_0);
            append_decimal(&mut s, config.dom_nodes_per_suite as u64);
            append_str(&mut s, WIKI_1);
            append_decimal(&mut s, config.canvas_draws_per_suite as u64);
            append_str(&mut s, WIKI_2);
            append_decimal(&mut s, config.style_mutations_per_suite as u64);
            append_str(&mut s, WIKI_3);
            append_decimal(&mut s, ticks as u64);
            append_str(&mut s, WIKI_4);
            s
        },
    }
}

// ---------------------------------------------------------------------------
// Metrics and scores
// ---------------------------------------------------------------------------

/// JSON-friendly metric bundle for one suite.
#[derive(Debug, Clone, Copy, PartialEq, Eq, Structural)]
pub struct SiteCompatibilityMetrics {
    /// Wall-clock runtime in microseconds.
    pub wall_time_us: u128,
    /// Byte length of generated script.
    pub script_bytes: usize,
    /// Line count of generated script.
    pub script_lines: usize,
    /// VM instructions executed.
    pub vm_instructions: u64,
    /// Event-loop jobs executed.
    pub event_loop_jobs: u64,
    /// Microtasks executed.
    pub microtasks_executed: u64,
    /// Promise reactions executed.
    pub promise_reactions_executed: u64,
    /// Timers fired.
    pub timers_fired: u64,
    /// DOM mutations.
    pub dom_mutations: u64,
    /// DOM queries.
    pub dom_queries: u64,
    /// CSSOM mutations.
    pub cssom_mutations: u64,
    /// Computed style reads.
    pub computed_style_reads: u64,
    /// Fetch calls.
    pub fetch_calls: u64,
    /// XHR sends.
    pub xhr_sends: u64,
    /// Storage writes.
    pub storage_writes: u64,
    /// Cookie writes.
    pub cookie_writes: u64,
    /// History mutations.
    pub history_mutations: u64,
    /// URL helper objects created.
    pub url_objects: u64,
    /// Canvas commands recorded.
    pub canvas_commands: u64,
    /// Media events emitted.
    pub media_events: u64,
    /// Worker messages total.
    pub worker_messages: u64,
    /// Console lines.
    pub console_lines: usize,
    /// Whether the event loop hit a configured limit.
    pub hit_limit: bool,
}

/// All counters zero.
pub open spec fn zero_site_metrics() -> SiteCompatibilityMetrics {
    SiteCompatibilityMetrics {
        wall_time_us: 0,
        script_bytes: 0,
        script_lines: 0,
        vm_instructions: 0,
        event_loop_jobs: 0,
        microtasks_executed: 0,
        promise_reactions_executed: 0,
        timers_fired: 0,
        dom_mutations: 0,
        dom_queries: 0,
        cssom_mutations: 0,
        computed_style_reads: 0,
        fetch_calls: 0,
        xhr_sends: 0,
        storage_writes: 0,
        cookie_writes: 0,
        history_mutations: 0,
        url_objects: 0,
        canvas_commands: 0,
        media_events: 0,
        worker_messages: 0,
        console_lines: 0,
        hit_limit: false,
    }
}

impl Default for SiteCompatibilityMetrics {
    fn default() -> (m: Self)
        ensures
            m == zero_site_metrics(),
    {
        Self {
            wall_time_us: 0,
            script_bytes: 0,
            script_lines: 0,
            vm_instructions: 0,
            event_loop_jobs: 0,
            microtasks_executed: 0,
            promise_reactions_executed: 0,
            timers_fired: 0,
            dom_mutations: 0,
            dom_queries: 0,
            cssom_mutations: 0,
            computed_style_reads: 0,
            fetch_calls: 0,
            xhr_sends: 0,
            storage_writes: 0,
            cookie_writes: 0,
            history_mutations: 0,
            url_objects: 0,
            canvas_commands: 0,
            media_events: 0,
            worker_messages: 0,
            console_lines: 0,
            hit_limit: false,
        }
    }
}

/// The value a signal reads from the metrics.
pub open spec fn signal_value(m: SiteCompatibilityMetrics, s: SiteCompatibilitySignal) -> u64 {
    match s {
        SiteCompatibilitySignal::VmInstructions => m.vm_instructions,
        SiteCompatibilitySignal::EventLoopJobs => m.event_loop_jobs,
        SiteCompatibilitySignal::Microtasks => m.microtasks_executed,
        SiteCompatibilitySignal::Timers => m.timers_fired,
        SiteCompatibilitySignal::DomMutations => m.dom_mutations,
        SiteCompatibilitySignal::DomQueries => m.dom_queries,
        SiteCompatibilitySignal::CssomMutations => m.cssom_mutations,
        SiteCompatibilitySignal::ComputedStyleReads => m.computed_style_reads,
        SiteCompatibilitySignal::FetchCalls => m.fetch_calls,
        SiteCompatibilitySignal::StorageWrites => m.storage_writes,
        SiteCompatibilitySignal::CookieWrites => m.cookie_writes,
        SiteCompatibilitySignal::HistoryMutations => m.history_mutations,
        SiteCompatibilitySignal::UrlObjects => m.url_objects,
        SiteCompatibilitySignal::CanvasCommands => m.canvas_commands,
        SiteCompatibilitySignal::MediaEvents => m.media_events,
        SiteCompatibilitySignal::WorkerMessages => m.worker_messages,
        SiteCompatibilitySignal::ConsoleLines => m.console_lines as u64,
    }
}

/// `true` or `false`.
pub open spec fn bool_text(b: bool) -> Seq<char> {
    if b {
        "true"@
    } else {
        "false"@
    }
}

/// The compact metric line.
pub open spec fn compact_text(m: SiteCompatibilityMetrics) -> Seq<char> {
    "instr="@ + decimal(m.vm_instructions as nat) + " jobs="@ + decimal(m.event_loop_jobs as nat)
        + " dom="@ + decimal(m.dom_mutations as nat) + " cssom="@ + decimal(m.cssom_mutations as nat)
        + " fetch="@ + decimal(m.fetch_calls as nat) + " storage="@ + decimal(m.storage_writes as nat)
        + " history="@ + decimal(m.history_mutations as nat) + " worker="@ + decimal(
        m.worker_messages as nat,
    ) + " canvas="@ + decimal(m.canvas_commands as nat) + " console="@ + decimal(
        m.console_lines as nat,
    ) + " limit="@ + bool_text(m.hit_limit)
}

impl SiteCompatibilityMetrics {
    fn value_for(&self, signal: SiteCompatibilitySignal) -> (r: u64)
        ensures
            r == signal_value(*self, signal),
    {
        match signal {
            SiteCompatibilitySignal::VmInstructions => self.vm_instructions,
            SiteCompatibilitySignal::EventLoopJobs => self.event_loop_jobs,
            SiteCompatibilitySignal::Microtasks => self.microtasks_executed,
            SiteCompatibilitySignal::Timers => self.timers_fired,
            SiteCompatibilitySignal::DomMutations => self.dom_mutations,
            SiteCompatibilitySignal::DomQueries => self.dom_queries,
            SiteCompatibilitySignal::CssomMutations => self.cssom_mutations,
            SiteCompatibilitySignal::ComputedStyleReads => self.computed_style_reads,
            SiteCompatibilitySignal::FetchCalls => self.fetch_calls,
            SiteCompatibilitySignal::StorageWrites => self.storage_writes,
            SiteCompatibilitySignal::CookieWrites => self.cookie_writes,
            SiteCompatibilitySignal::HistoryMutations => self.history_mutations,
            SiteCompatibilitySignal::UrlObjects => self.url_objects,
            SiteCompatibilitySignal::CanvasCommands => self.canvas_commands,
            SiteCompatibilitySignal::MediaEvents => self.media_events,
            SiteCompatibilitySignal::WorkerMessages => self.worker_messages,
            SiteCompatibilitySignal::ConsoleLines => self.console_lines as u64,
        }
    }

    /// Returns a compact human-readable metric line.
    pub fn compact(&self) -> (s: String)
        ensures
            s@ == compact_text(*self),
    {
        let mut s = owned("instr=");
        append_decimal(&mut s, self.vm_instructions);
        append_str(&mut s, " jobs=");
        append_decimal(&mut s, self.event_loop_jobs);
        append_str(&mut s, " dom=");
        append_decimal(&mut s, self.dom_mutations);
        append_str(&mut s, " cssom=");
        append_decimal(&mut s, self.cssom_mutations);
        append_str(&mut s, " fetch=");
        append_decimal(&mut s, self.fetch_calls);
        append_str(&mut s, " storage=");
        append_decimal(&mut s, self.storage_writes);
        append_str(&mut s, " history=");
        append_decimal(&mut s, self.history_mutations);
        append_str(&mut s, " worker=");
        append_decimal(&mut s, self.worker_messages);
        append_str(&mut s, " canvas=");
        append_decimal(&mut s, self.canvas_commands);
        append_str(&mut s, " console=");
        append_decimal(&mut s, self.console_lines as u64);
        append_str(&mut s, " limit=");
        append_str(&mut s, if self.hit_limit { "true" } else { "false" });
        s
    }
}

/// One scored compatibility signal.
#[derive(Debug, Clone, Copy, PartialEq, Eq, Structural)]
pub struct SiteCompatibilityScore {
    /// Signal.
    pub signal: SiteCompatibilitySignal,
    /// Minimum expected value.
    pub minimum: u64,
    /// Actual value measured.
    pub actual: u64,
    /// Signal weight.
    pub weight: u32,
    /// Whether actual reached the minimum.
    pub passed: bool,
}

/// Larger of two.
pub open spec fn max_u64(a: u64, b: u64) -> u64 {
    if a < b {
        b
    } else {
        a
    }
}

/// Smaller of two.
pub open spec fn min_u64(a: u64, b: u64) -> u64 {
    if a < b {
        a
    } else {
        b
    }
}

/// What a suite is expected to reach: signal, minimum and weight, in order.
pub open spec fn expectations(suite: SiteCompatibilitySuite, c: HarnessConfigView) -> Seq<
    (SiteCompatibilitySignal, u64, u32),
> {
    let dom_min = max_u64(c.dom_nodes_per_suite as u64, 1);
    let style_min = max_u64(min_u64(c.style_mutations_per_suite as u64, 3), 1);
    let worker_min = max_u64(c.worker_messages_per_suite as u64, 1);
    let timer_min = max_u64(min_u64(c.timer_ticks_per_suite as u64, 3), 1);
    let canvas_min = max_u64(min_u64(c.canvas_draws_per_suite as u64, 3), 1);
    match suite {
        SiteCompatibilitySuite::GoogleSearch => seq![
            (SiteCompatibilitySignal::VmInstructions, 100u64, 2u32),
            (SiteCompatibilitySignal::DomMutations, dom_min, 3u32),
            (SiteCompatibilitySignal::CssomMutations, style_min, 2u32),
            (SiteCompatibilitySignal::FetchCalls, 2u64, 3u32),
            (SiteCompatibilitySignal::StorageWrites, 1u64, 2u32),
            (SiteCompatibilitySignal::HistoryMutations, 1u64, 2u32),
            (SiteCompatibilitySignal::Timers, timer_min, 1u32),
            (SiteCompatibilitySignal::Microtasks, 1u64, 1u32),
            (SiteCompatibilitySignal::ConsoleLines, 3u64, 1u32),
        ],
        SiteCompatibilitySuite::GitHubRepository => seq![
            (SiteCompatibilitySignal::VmInstructions, 100u64, 2u32),
            (SiteCompatibilitySignal::DomMutations, dom_min, 3u32),
            (SiteCompatibilitySignal::DomQueries, 1u64, 1u32),
            (SiteCompatibilitySignal::CssomMutations, style_min, 2u32),
            (SiteCompatibilitySignal::FetchCalls, 3u64, 3u32),
            (SiteCompatibilitySignal::StorageWrites, 1u64, 1u32),
            (SiteCompatibilitySignal::HistoryMutations, 1u64, 1u32),
            (SiteCompatibilitySignal::WorkerMessages, worker_min, 2u32),
            (SiteCompatibilitySignal::ConsoleLines, 3u64, 1u32),
        ],
        SiteCompatibilitySuite::WikipediaArticle => seq![
            (SiteCompatibilitySignal::VmInstructions, 100u64, 2u32),
            (SiteCompatibilitySignal::DomMutations, dom_min, 3u32),
            (SiteCompatibilitySignal::CssomMutations, style_min, 2u32),
            (SiteCompatibilitySignal::FetchCalls, 2u64, 3u32),
            (SiteCompatibilitySignal::StorageWrites, 1u64, 1u32),
            (SiteCompatibilitySignal::CookieWrites, 1u64, 1u32),
            (SiteCompatibilitySignal::HistoryMutations, 1u64, 1u32),
            (SiteCompatibilitySignal::CanvasCommands, canvas_min, 1u32),
            (SiteCompatibilitySignal::Timers, timer_min, 1u32),
            (SiteCompatibilitySignal::ConsoleLines, 3u64, 1u32),
        ],
    }
}

/// The score of one expectation: passed when the measured value reaches the minimum.
pub open spec fn score_of(e: (SiteCompatibilitySignal, u64, u32), m: SiteCompatibilityMetrics) -> SiteCompatibilityScore {
    SiteCompatibilityScore {
        signal: e.0,
        minimum: e.1,
        actual: signal_value(m, e.0),
        weight: e.2,
        passed: signal_value(m, e.0) >= e.1,
    }
}

/// The scores of a suite, in expectation order.
pub open spec fn suite_scores(
    suite: SiteCompatibilitySuite,
    c: HarnessConfigView,
    m: SiteCompatibilityMetrics,
) -> Seq<SiteCompatibilityScore> {
    expectations(suite, c).map_values(|e: (SiteCompatibilitySignal, u64, u32)| score_of(e, m))
}

/// Sum of the weights.
pub open spec fn weight_sum(s: Seq<SiteCompatibilityScore>) -> nat
    decreases s.len(),
{
    if s.len() == 0 {
        0
    } else {
        weight_sum(s.drop_last()) + s.last().weight as nat
    }
}

/// Sum of the weights of the passed scores.
pub open spec fn passed_weight_sum(s: Seq<SiteCompatibilityScore>) -> nat
    decreases s.len(),
{
    if s.len() == 0 {
        0
    } else {
        passed_weight_sum(s.drop_last()) + if s.last().passed {
            s.last().weight as nat
        } else {
            0
        }
    }
}

/// Weighted pass percentage: passed weight over total weight (at least one), at most 100.
pub open spec fn weighted_percent(s: Seq<SiteCompatibilityScore>) -> u8 {
    let total = if weight_sum(s) == 0 {
        1
    } else {
        weight_sum(s)
    };
    let p = passed_weight_sum(s) * 100 / total;
    if p > 100 {
        100
    } else {
        p as u8
    }
}

fn expectation_list(suite: SiteCompatibilitySuite, config: &SiteCompatibilityHarnessConfig) -> (r: Vec<
    (SiteCompatibilitySignal, u64, u32),
>)
    ensures
        r@ == expectations(suite, config@),
{
    let dom_min: u64 = if config.dom_nodes_per_suite < 1 {
        1
    } else {
        config.dom_nodes_per_suite as u64
    };
    let style_cap: u64 = if config.style_mutations_per_suite < 3 {
        config.style_mutations_per_suite as u64
    } else {
        3
    };
    let style_min: u64 = if style_cap < 1 {
        1
    } else {
        style_cap
    };
    let worker_min: u64 = if config.worker_messages_per_suite < 1 {
        1
    } else {
        config.worker_messages_per_suite as u64
    };
    let timer_cap: u64 = if config.timer_ticks_per_suite < 3 {
        config.timer_ticks_per_suite as u64
    } else {
        3
    };
    let timer_min: u64 = if timer_cap < 1 {
        1
    } else {
        timer_cap
    };
    let canvas_cap: u64 = if config.canvas_draws_per_suite < 3 {
        config.canvas_draws_per_suite as u64
    } else {
        3
    };
    let canvas_min: u64 = if canvas_cap < 1 {
        1
    } else {
        canvas_cap
    };
    let r = match suite {
        SiteCompatibilitySuite::GoogleSearch => vec![
            (SiteCompatibilitySignal::VmInstructions, 100u64, 2u32),
            (SiteCompatibilitySignal::DomMutations, dom_min, 3u32),
            (SiteCompatibilitySignal::CssomMutations, style_min, 2u32),
            (SiteCompatibilitySignal::FetchCalls, 2u64, 3u32),
            (SiteCompatibilitySignal::StorageWrites, 1u64, 2u32),
            (SiteCompatibilitySignal::HistoryMutations, 1u64, 2u32),
            (SiteCompatibilitySignal::Timers, timer_min, 1u32),
            (SiteCompatibilitySignal::Microtasks, 1u64, 1u32),
            (SiteCompatibilitySignal::ConsoleLines, 3u64, 1u32),
        ],
        SiteCompatibilitySuite::GitHubRepository => vec![
            (SiteCompatibilitySignal::VmInstructions, 100u64, 2u32),
            (SiteCompatibilitySignal::DomMutations, dom_min, 3u32),
            (SiteCompatibilitySignal::DomQueries, 1u64, 1u32),
            (SiteCompatibilitySignal::CssomMutations, style_min, 2u32),
            (SiteCompatibilitySignal::FetchCalls, 3u64, 3u32),
            (SiteCompatibilitySignal::StorageWrites, 1u64, 1u32),
            (SiteCompatibilitySignal::HistoryMutations, 1u64, 1u32),
            (SiteCompatibilitySignal::WorkerMessages, worker_min, 2u32),
            (SiteCompatibilitySignal::ConsoleLines, 3u64, 1u32),
        ],
        SiteCompatibilitySuite::WikipediaArticle => vec![
            (SiteCompatibilitySignal::VmInstructions, 100u64, 2u32),
            (SiteCompatibilitySignal::DomMutations, dom_min, 3u32),
            (SiteCompatibilitySignal::CssomMutations, style_min, 2u32),
            (SiteCompatibilitySignal::FetchCalls, 2u64, 3u32),
            (SiteCompatibilitySignal::StorageWrites, 1u64, 1u32),
            (SiteCompatibilitySignal::CookieWrites, 1u64, 1u32),
            (SiteCompatibilitySignal::HistoryMutations, 1u64, 1u32),
            (SiteCompatibilitySignal::CanvasCommands, canvas_min, 1u32),
            (SiteCompatibilitySignal::Timers, timer_min, 1u32),
            (SiteCompatibilitySignal::ConsoleLines, 3u64, 1u32),
        ],
    };
    assert(r@ =~= expectations(suite, config@));
    r
}

fn evaluate_suite(
    suite: SiteCompatibilitySuite,
    config: &SiteCompatibilityHarnessConfig,
    metrics: &SiteCompatibilityMetrics,
) -> (r: Vec<SiteCompatibilityScore>)
    ensures
        r@ == suite_scores(suite, config@, *metrics),
{
    let exps = expectation_list(suite, config);
    let mut r: Vec<SiteCompatibilityScore> = Vec::new();
    let mut i: usize = 0;
    while i < exps.len()
        invariant
            i <= exps@.len(),
            exps@ == expectations(suite, config@),
            r@ =~= suite_scores(suite, config@, *metrics).take(i as int),
        decreases exps.len() - i,
    {
        let e = exps[i];
        let actual = metrics.value_for(e.0);
        r.push(SiteCompatibilityScore {
            signal: e.0,
            minimum: e.1,
            actual,
            weight: e.2,
            passed: actual >= e.1,
        });
        i = i + 1;
        assert(r@ =~= suite_scores(suite, config@, *metrics).take(i as int));
    }
    assert(suite_scores(suite, config@, *metrics).take(i as int) =~= suite_scores(suite, config@, *metrics));
    r
}

proof fn lemma_weight_sums_bounded(s: Seq<SiteCompatibilityScore>)
    requires
        forall|i: int| 0 <= i < s.len() ==> #[trigger] s[i].weight <= 3,
    ensures
        weight_sum(s) <= 3 * s.len(),
        passed_weight_sum(s) <= weight_sum(s),
    decreases s.len(),
{
    if s.len() > 0 {
        lemma_weight_sums_bounded(s.drop_last());
    }
}

fn weighted_score_percent(scores: &Vec<SiteCompatibilityScore>) -> (r: u8)
    requires
        scores@.len() <= 16,
        forall|i: int| 0 <= i < scores@.len() ==> #[trigger] scores@[i].weight <= 3,
    ensures
        r == weighted_percent(scores@),
{
    proof {
        lemma_weight_sums_bounded(scores@);
    }
    let mut total: u32 = 0;
    let mut passed: u32 = 0;
    let mut i: usize = 0;
    while i < scores.len()
        invariant
            i <= scores@.len(),
            scores@.len() <= 16,
            forall|k: int| 0 <= k < scores@.len() ==> #[trigger] scores@[k].weight <= 3,
            total == weight_sum(scores@.take(i as int)),
            passed == passed_weight_sum(scores@.take(i as int)),
        decreases scores.len() - i,
    {
        proof {
            assert(scores@.take(i as int + 1).drop_last() =~= scores@.take(i as int));
            lemma_weight_sums_bounded(scores@.take(i as int + 1));
        }
        total = total + scores[i].weight;
        if scores[i].passed {
            passed = passed + scores[i].weight;
        }
        i = i + 1;
    }
    assert(scores@.take(i as int) =~= scores@);
    let denominator: u32 = if total == 0 {
        1
    } else {
        total
    };
    let p = passed * 100 / denominator;
    if p > 100 {
        100
    } else {
        p as u8
    }
}

// ---------------------------------------------------------------------------
// Suite runs
// ---------------------------------------------------------------------------

/// The warning of a suite that hit a limit.
pub open spec fn limit_warning() -> Seq<char> {
    "suite hit VM or event-loop limit; raise budgets or inspect runaway work"@
}

/// The warning of a score below its minimum.
pub open spec fn score_warning(sc: SiteCompatibilityScore) -> Seq<char> {
    "signal `"@ + signal_name(sc.signal) + "` below minimum: actual="@ + decimal(sc.actual as nat)
        + " minimum="@ + decimal(sc.minimum as nat)
}

/// The warnings of the failed scores, in order.
pub open spec fn score_warnings(s: Seq<SiteCompatibilityScore>) -> Seq<Seq<char>>
    decreases s.len(),
{
    if s.len() == 0 {
        Seq::empty()
    } else if s.last().passed {
        score_warnings(s.drop_last())
    } else {
        score_warnings(s.drop_last()).push(score_warning(s.last()))
    }
}

/// One synthetic suite result.
#[derive(Debug, Clone, PartialEq, Eq)]
pub struct SiteCompatibilitySuiteRun {
    /// Suite id.
    pub suite: SiteCompatibilitySuite,
    /// Stable target URL used by the suite.
    pub target_url: String,
    /// Suite title.
    pub title: String,
    /// Suite description.
    pub description: String,
    /// Metrics.
    pub metrics: SiteCompatibilityMetrics,
    /// Signal scores.
    pub scores: Vec<SiteCompatibilityScore>,
    /// Weighted pass percentage.
    pub score_percent: u8,
    /// Overall pass/fail.
    pub passed: bool,
    /// Captured console lines.
    pub console: Vec<String>,
    /// Warnings generated by the harness.
    pub warnings: Vec<String>,
}

/// Model of a suite result.
pub struct SuiteRunView {
    pub suite: SiteCompatibilitySuite,
    pub target_url: Seq<char>,
    pub title: Seq<char>,
    pub description: Seq<char>,
    pub metrics: SiteCompatibilityMetrics,
    pub scores: Seq<SiteCompatibilityScore>,
    pub score_percent: u8,
    pub passed: bool,
    pub console: Seq<Seq<char>>,
    pub warnings: Seq<Seq<char>>,
}

impl View for SiteCompatibilitySuiteRun {
    type V = SuiteRunView;

    open spec fn view(&self) -> SuiteRunView {
        SuiteRunView {
            suite: self.suite,
            target_url: self.target_url@,
            title: self.title@,
            description: self.description@,
            metrics: self.metrics,
            scores: self.scores@,
            score_percent: self.score_percent,
            passed: self.passed,
            console: string_views(self.console@),
            warnings: string_views(self.warnings@),
        }
    }
}

/// Views of a list of suite results.
pub open spec fn suite_run_views(s: Seq<SiteCompatibilitySuiteRun>) -> Seq<SuiteRunView> {
    s.map_values(|r: SiteCompatibilitySuiteRun| r@)
}

/// The result of a suite from what was measured: scores against the
/// expectations, the weighted percentage, a pass at 80 percent without a
/// limit hit, and the warnings.
pub open spec fn scored_suite(
    suite: SiteCompatibilitySuite,
    c: HarnessConfigView,
    m: SiteCompatibilityMetrics,
    console: Seq<Seq<char>>,
) -> SuiteRunView {
    let scores = suite_scores(suite, c, m);
    let percent = weighted_percent(scores);
    SuiteRunView {
        suite,
        target_url: suite_url(suite),
        title: suite_title(suite),
        description: suite_description(suite),
        metrics: m,
        scores,
        score_percent: percent,
        passed: percent >= 80 && !m.hit_limit,
        console,
        warnings: (if m.hit_limit {
            seq![limit_warning()]
        } else {
            Seq::empty()
        }) + score_warnings(scores),
    }
}

fn push_score_warning(w: &mut Vec<String>, sc: SiteCompatibilityScore)
    ensures
        string_views(final(w)@) == string_views(old(w)@).push(score_warning(sc)),
{
    let mut line = owned("signal `");
    append_str(&mut line, sc.signal.as_str());
    append_str(&mut line, "` below minimum: actual=");
    append_decimal(&mut line, sc.actual);
    append_str(&mut line, " minimum=");
    append_decimal(&mut line, sc.minimum);
    let ghost lv = line@;
    w.push(line);
    assert(string_views(w@) =~= string_views(old(w)@).push(lv));
}

/// Scores a suite from what its run measured.
pub fn score_suite(
    suite: SiteCompatibilitySuite,
    config: &SiteCompatibilityHarnessConfig,
    metrics: SiteCompatibilityMetrics,
    console: Vec<String>,
) -> (r: SiteCompatibilitySuiteRun)
    ensures
        r@ == scored_suite(suite, config@, metrics, string_views(console@)),
{
    let scores = evaluate_suite(suite, config, &metrics);
    proof {
        let e = expectations(suite, config@);
        assert forall|i: int| 0 <= i < scores@.len() implies #[trigger] scores@[i].weight <= 3 by {
            assert(scores@[i] == score_of(e[i], metrics));
        }
    }
    let score_percent = weighted_score_percent(&scores);
    let passed = score_percent >= 80 && !metrics.hit_limit;
    let mut warnings: Vec<String> = Vec::new();
    if metrics.hit_limit {
        warnings.push(owned("suite hit VM or event-loop limit; raise budgets or inspect runaway work"));
    }
    let ghost head = string_views(warnings@);
    let mut i: usize = 0;
    while i < scores.len()
        invariant
            i <= scores@.len(),
            string_views(warnings@) == head + score_warnings(scores@.take(i as int)),
        decreases scores.len() - i,
    {
        assert(scores@.take(i as int + 1).drop_last() =~= scores@.take(i as int));
        if !scores[i].passed {
            push_score_warning(&mut warnings, scores[i]);
            assert(string_views(warnings@) =~= head + score_warnings(scores@.take(i as int + 1)));
        }
        i = i + 1;
    }
    assert(scores@.take(i as int) =~= scores@);
    proof {
        if metrics.hit_limit {
            assert(head =~= seq![limit_warning()]);
        } else {
            assert(head =~= Seq::<Seq<char>>::empty());
        }
    }
    SiteCompatibilitySuiteRun {
        suite,
        target_url: owned(suite.target_url()),
        title: owned(suite.title()),
        description: owned(suite.description()),
        metrics,
        scores,
        score_percent,
        passed,
        console,
        warnings,
    }
}

/// Raw counters read from the engine and its hosts after one suite ran.
#[derive(Debug, Clone, Copy, PartialEq, Eq, Structural)]
pub struct SuiteMeasurements {
    /// Wall-clock runtime in microseconds.
    pub wall_time_us: u128,
    /// VM instructions executed.
    pub vm_instructions: u64,
    /// Event-loop jobs executed.
    pub event_loop_jobs: u64,
    /// Microtasks executed.
    pub microtasks_executed: u64,
    /// Promise reactions executed.
    pub promise_reactions_executed: u64,
    /// Timers fired.
    pub timers_fired: u64,
    /// The event loop hit a limit.
    pub hit_limit: bool,
    /// DOM text mutations.
    pub dom_text_mutations: u64,
    /// DOM attribute mutations.
    pub dom_attribute_mutations: u64,
    /// DOM value mutations.
    pub dom_value_mutations: u64,
    /// DOM structure mutations.
    pub dom_structure_mutations: u64,
    /// DOM queries.
    pub dom_queries: u64,
    /// CSSOM inline style writes.
    pub cssom_inline_writes: u64,
    /// CSSOM inline style removals.
    pub cssom_inline_removals: u64,
    /// CSSOM rules inserted.
    pub cssom_rules_inserted: u64,
    /// CSSOM rules deleted.
    pub cssom_rules_deleted: u64,
    /// Computed style reads.
    pub computed_style_reads: u64,
    /// Fetch calls.
    pub fetch_calls: u64,
    /// XHR sends.
    pub xhr_sends: u64,
    /// Storage writes.
    pub storage_writes: u64,
    /// Cookie writes.
    pub cookie_writes: u64,
    /// History pushes.
    pub history_pushes: u64,
    /// History replacements.
    pub history_replaces: u64,
    /// URL objects created.
    pub urls_created: u64,
    /// URLSearchParams objects created.
    pub url_search_params_created: u64,
    /// Canvas commands recorded.
    pub canvas_commands_recorded: u64,
    /// Media events emitted.
    pub media_events: u64,
    /// Messages posted to workers.
    pub messages_to_worker: u64,
    /// Messages posted back to the page.
    pub messages_to_main: u64,
}

/// Saturating sum.
pub open spec fn sat_sum(a: u64, b: u64) -> u64 {
    if a + b > u64::MAX {
        u64::MAX
    } else {
        (a + b) as u64
    }
}

/// The metrics of a suite: the script's size and line count, the raw
/// counters combined per signal with saturating sums, and the console size.
pub open spec fn measured_metrics(m: SuiteMeasurements, script: Seq<char>, console_lines: nat) -> SiteCompatibilityMetrics {
    SiteCompatibilityMetrics {
        wall_time_us: m.wall_time_us,
        script_bytes: byte_len(script) as usize,
        script_lines: line_count(script) as usize,
        vm_instructions: m.vm_instructions,
        event_loop_jobs: m.event_loop_jobs,
        microtasks_executed: m.microtasks_executed,
        promise_reactions_executed: m.promise_reactions_executed,
        timers_fired: m.timers_fired,
        dom_mutations: sat_sum(
            sat_sum(sat_sum(m.dom_text_mutations, m.dom_attribute_mutations), m.dom_value_mutations),
            m.dom_structure_mutations,
        ),
        dom_queries: m.dom_queries,
        cssom_mutations: sat_sum(
            sat_sum(sat_sum(m.cssom_inline_writes, m.cssom_inline_removals), m.cssom_rules_inserted),
            m.cssom_rules_deleted,
        ),
        computed_style_reads: m.computed_style_reads,
        fetch_calls: m.fetch_calls,
        xhr_sends: m.xhr_sends,
        storage_writes: m.storage_writes,
        cookie_writes: m.cookie_writes,
        history_mutations: sat_sum(m.history_pushes, m.history_replaces),
        url_objects: sat_sum(m.urls_created, m.url_search_params_created),
        canvas_commands: m.canvas_commands_recorded,
        media_events: m.media_events,
        worker_messages: sat_sum(m.messages_to_worker, m.messages_to_main),
        console_lines: console_lines as usize,
        hit_limit: m.hit_limit,
    }
}

/// The metrics of a suite from its raw counters, its script and its console.
pub fn site_metrics(m: &SuiteMeasurements, script: &str, console_lines: usize) -> (r: SiteCompatibilityMetrics)
    ensures
        r == measured_metrics(*m, script@, console_lines as nat),
{
    SiteCompatibilityMetrics {
        wall_time_us: m.wall_time_us,
        script_bytes: utf8_len(script),
        script_lines: count_lines(script),
        vm_instructions: m.vm_instructions,
        event_loop_jobs: m.event_loop_jobs,
        microtasks_executed: m.microtasks_executed,
        promise_reactions_executed: m.promise_reactions_executed,
        timers_fired: m.timers_fired,
        dom_mutations: m.dom_text_mutations.saturating_add(m.dom_attribute_mutations).saturating_add(
            m.dom_value_mutations,
        ).saturating_add(m.dom_structure_mutations),
        dom_queries: m.dom_queries,
        cssom_mutations: m.cssom_inline_writes.saturating_add(m.cssom_inline_removals).saturating_add(
            m.cssom_rules_inserted,
        ).saturating_add(m.cssom_rules_deleted),
        computed_style_reads: m.computed_style_reads,
        fetch_calls: m.fetch_calls,
        xhr_sends: m.xhr_sends,
        storage_writes: m.storage_writes,
        cookie_writes: m.cookie_writes,
        history_mutations: m.history_pushes.saturating_add(m.history_replaces),
        url_objects: m.urls_created.saturating_add(m.url_search_params_created),
        canvas_commands: m.canvas_commands_recorded,
        media_events: m.media_events,
        worker_messages: m.messages_to_worker.saturating_add(m.messages_to_main),
        console_lines,
        hit_limit: m.hit_limit,
    }
}

// ---------------------------------------------------------------------------
// Aggregate and harness
// ---------------------------------------------------------------------------

/// Aggregate compatibility report.
#[derive(Debug, Clone, Copy, PartialEq, Eq, Structural)]
pub struct SiteCompatibilityAggregate {
    /// Suite count.
    pub suites: usize,
    /// Passed suite count.
    pub passed: usize,
    /// Failed suite count.
    pub failed: usize,
    /// Average weighted score.
    pub average_score_percent: u8,
    /// Total VM instructions.
    pub total_vm_instructions: u64,
    /// Total DOM mutations.
    pub total_dom_mutations: u64,
    /// Total CSSOM mutations.
    pub total_cssom_mutations: u64,
    /// Total fetch calls.
    pub total_fetch_calls: u64,
    /// Total worker messages.
    pub total_worker_messages: u64,
    /// Total canvas commands.
    pub total_canvas_commands: u64,
    /// Whether any suite hit a runtime/event-loop limit.
    pub any_hit_limit: bool,
}

/// The empty report.
pub open spec fn zero_aggregate() -> SiteCompatibilityAggregate {
    SiteCompatibilityAggregate {
        suites: 0,
        passed: 0,
        failed: 0,
        average_score_percent: 0,
        total_vm_instructions: 0,
        total_dom_mutations: 0,
        total_cssom_mutations: 0,
        total_fetch_calls: 0,
        total_worker_messages: 0,
        total_canvas_commands: 0,
        any_hit_limit: false,
    }
}

impl Default for SiteCompatibilityAggregate {
    fn default() -> (a: Self)
        ensures
            a == zero_aggregate(),
    {
        Self {
            suites: 0,
            passed: 0,
            failed: 0,
            average_score_percent: 0,
            total_vm_instructions: 0,
            total_dom_mutations: 0,
            total_cssom_mutations: 0,
            total_fetch_calls: 0,
            total_worker_messages: 0,
            total_canvas_commands: 0,
            any_hit_limit: false,
        }
    }
}

/// Running totals over suite results: passed count, score sum, saturating
/// metric totals and whether any hit a limit.
pub open spec fn aggregate_totals(s: Seq<SuiteRunView>) -> (nat, nat, u64, u64, u64, u64, u64, u64, bool)
    decreases s.len(),
{
    if s.len() == 0 {
        (0, 0, 0, 0, 0, 0, 0, 0, false)
    } else {
        let t = aggregate_totals(s.drop_last());
        let m = s.last().metrics;
        (
            t.0 + if s.last().passed {
                1nat
            } else {
                0nat
            },
            t.1 + s.last().score_percent as nat,
            sat_sum(t.2, m.vm_instructions),
            sat_sum(t.3, m.dom_mutations),
            sat_sum(t.4, m.cssom_mutations),
            sat_sum(t.5, m.fetch_calls),
            sat_sum(t.6, m.worker_messages),
            sat_sum(t.7, m.canvas_commands),
            t.8 || m.hit_limit,
        )
    }
}

/// The report over suite results: counts, the average score (at most
/// 100), metric totals (saturating) and any limit hit; empty for no suites.
pub open spec fn aggregate_of(s: Seq<SuiteRunView>) -> SiteCompatibilityAggregate {
    if s.len() == 0 {
        zero_aggregate()
    } else {
        let t = aggregate_totals(s);
        let avg = t.1 / s.len();
        SiteCompatibilityAggregate {
            suites: s.len() as usize,
            passed: t.0 as usize,
            failed: (s.len() - t.0) as usize,
            average_score_percent: if avg > 100 {
                100
            } else {
                avg as u8
            },
            total_vm_instructions: t.2,
            total_dom_mutations: t.3,
            total_cssom_mutations: t.4,
            total_fetch_calls: t.5,
            total_worker_messages: t.6,
            total_canvas_commands: t.7,
            any_hit_limit: t.8,
        }
    }
}

proof fn lemma_totals_bounded(s: Seq<SuiteRunView>)
    ensures
        aggregate_totals(s).0 <= s.len(),
        aggregate_totals(s).1 <= 255 * s.len(),
    decreases s.len(),
{
    if s.len() > 0 {
        lemma_totals_bounded(s.drop_last());
    }
}

fn aggregate_runs(runs: &Vec<SiteCompatibilitySuiteRun>) -> (a: SiteCompatibilityAggregate)
    requires
        runs@.len() <= 3,
    ensures
        a == aggregate_of(suite_run_views(runs@)),
{
    let ghost views = suite_run_views(runs@);
    if runs.len() == 0 {
        return SiteCompatibilityAggregate::default();
    }
    let mut passed: usize = 0;
    let mut score_sum: u32 = 0;
    let mut vm: u64 = 0;
    let mut dom: u64 = 0;
    let mut cssom: u64 = 0;
    let mut fetch: u64 = 0;
    let mut worker: u64 = 0;
    let mut canvas: u64 = 0;
    let mut any_limit = false;
    let mut i: usize = 0;
    while i < runs.len()
        invariant
            i <= runs@.len(),
            runs@.len() <= 3,
            views == suite_run_views(runs@),
            (passed as nat, score_sum as nat, vm, dom, cssom, fetch, worker, canvas, any_limit)
                == aggregate_totals(views.take(i as int)),
        decreases runs.len() - i,
    {
        proof {
            assert(views.take(i as int + 1).drop_last() =~= views.take(i as int));
            lemma_totals_bounded(views.take(i as int));
        }
        let m = runs[i].metrics;
        if runs[i].passed {
            passed = passed + 1;
        }
        score_sum = score_sum + runs[i].score_percent as u32;
        vm = vm.saturating_add(m.vm_instructions);
        dom = dom.saturating_add(m.dom_mutations);
        cssom = cssom.saturating_add(m.cssom_mutations);
        fetch = fetch.saturating_add(m.fetch_calls);
        worker = worker.saturating_add(m.worker_messages);
        canvas = canvas.saturating_add(m.canvas_commands);
        any_limit = any_limit || m.hit_limit;
        i = i + 1;
    }
    assert(views.take(i as int) =~= views);
    proof {
        lemma_totals_bounded(views);
    }
    let n = runs.len();
    let avg = score_sum / (n as u32);
    SiteCompatibilityAggregate {
        suites: n,
        passed,
        failed: n - passed,
        average_score_percent: if avg > 100 {
            100
        } else {
            avg as u8
        },
        total_vm_instructions: vm,
        total_dom_mutations: dom,
        total_cssom_mutations: cssom,
        total_fetch_calls: fetch,
        total_worker_messages: worker,
        total_canvas_commands: canvas,
        any_hit_limit: any_limit,
    }
}

/// Full harness run.
#[derive(Debug, Clone, PartialEq, Eq)]
pub struct SiteCompatibilityHarnessRun {
    /// Config used.
    pub config: SiteCompatibilityHarnessConfig,
    /// Aggregate summary.
    pub aggregate: SiteCompatibilityAggregate,
    /// Per-suite runs.
    pub suites: Vec<SiteCompatibilitySuiteRun>,
}

/// What runs a suite: a fresh engine with the suite's hosts and routes,
/// executing the generated script and draining the event loop. Nothing is
/// assumed of what it returns; the harness scores whatever comes back.
pub trait SiteCompatibilityRunner {
    /// The suites this engine was asked to run, each with the script text it
    /// was handed, in order.
    spec fn ran(&self) -> Seq<(SiteCompatibilitySuite, Seq<char>)>;

    /// What this engine returned for each suite it ran, in order.
    spec fn results(&self) -> Seq<Result<(SuiteMeasurements, Seq<Seq<char>>), Seq<char>>>;

    /// Runs one suite script; returns the raw counters and the console lines,
    /// or the engine's error.
    fn run_suite(
        &mut self,
        suite: SiteCompatibilitySuite,
        config: &SiteCompatibilityHarnessConfig,
        script: &str,
    ) -> (r: Result<(SuiteMeasurements, Vec<String>), String>)
        ensures
            final(self).ran() == old(self).ran().push((suite, script@)),
            final(self).results() == old(self).results().push(outcome_view(r)),
    ;
}

/// The runs a harness asks for over `ss`: each suite with its generated script.
pub open spec fn suite_calls(c: HarnessConfigView, ss: Seq<SiteCompatibilitySuite>) -> Seq<
    (SiteCompatibilitySuite, Seq<char>),
> {
    ss.map_values(|s: SiteCompatibilitySuite| (s, site_script(s, c)))
}

/// View of what a runner returned.
pub open spec fn outcome_view(r: Result<(SuiteMeasurements, Vec<String>), String>) -> Result<
    (SuiteMeasurements, Seq<Seq<char>>),
    Seq<char>,
> {
    match r {
        Ok((m, console)) => Ok((m, string_views(console@))),
        Err(e) => Err(e@),
    }
}

/// The suite results of a harness run over `ss` with the runner's results
/// `outs` (one per suite, in order), or the first error.
pub open spec fn harness_runs(
    c: HarnessConfigView,
    ss: Seq<SiteCompatibilitySuite>,
    outs: Seq<Result<(SuiteMeasurements, Seq<Seq<char>>), Seq<char>>>,
) -> Result<Seq<SuiteRunView>, Seq<char>>
    decreases ss.len(),
{
    if ss.len() == 0 {
        Ok(Seq::empty())
    } else {
        match harness_runs(c, ss.drop_last(), outs.drop_last()) {
            Err(e) => Err(e),
            Ok(prev) => match outs.last() {
                Err(e) => Err(e),
                Ok((m, console)) => Ok(
                    prev.push(
                        scored_suite(
                            ss.last(),
                            c,
                            measured_metrics(m, site_script(ss.last(), c), console.len()),
                            console,
                        ),
                    ),
                ),
            },
        }
    }
}

/// A harness result `r` over the sanitized config `c` agrees with what the
/// runner was asked and returned: `outs`, the results it returned during the
/// run (one per suite, in order, up to the first error), are appended to its
/// log of results, the suites with their scripts to its log of runs; the
/// suite results are scored from exactly those results, and an error is the
/// runner's first error.
pub open spec fn harness_outcome(
    r: Result<SiteCompatibilityHarnessRun, String>,
    c: HarnessConfigView,
    ran_before: Seq<(SiteCompatibilitySuite, Seq<char>)>,
    ran_after: Seq<(SiteCompatibilitySuite, Seq<char>)>,
    results_before: Seq<Result<(SuiteMeasurements, Seq<Seq<char>>), Seq<char>>>,
    results_after: Seq<Result<(SuiteMeasurements, Seq<Seq<char>>), Seq<char>>>,
) -> bool {
    let outs = results_after.skip(results_before.len() as int);
    &&& results_before.len() <= results_after.len()
    &&& results_after == results_before + outs
    &&& outs.len() <= c.suites.len()
    &&& ran_after == ran_before + suite_calls(c, c.suites.take(outs.len() as int))
    &&& match r {
        Ok(run) => {
            &&& outs.len() == c.suites.len()
            &&& harness_runs(c, c.suites, outs) == Ok::<Seq<SuiteRunView>, Seq<char>>(suite_run_views(run.suites@))
            &&& run.config@ == c
            &&& run.aggregate == aggregate_of(suite_run_views(run.suites@))
        },
        Err(e) => {
            &&& 1 <= outs.len()
            &&& harness_runs(c, c.suites.take(outs.len() as int), outs) == Err::<Seq<SuiteRunView>, Seq<char>>(e@)
        },
    }
}

/// Runs the synthetic site compatibility harness: sanitizes the config,
/// runs each suite's generated script through the runner in order, scores
/// what each run measured, and aggregates; the first runner error stops it.
pub fn run_site_compatibility_harness<R: SiteCompatibilityRunner>(
    config: SiteCompatibilityHarnessConfig,
    runner: &mut R,
) -> (r: Result<SiteCompatibilityHarnessRun, String>)
    ensures
        harness_outcome(
            r,
            sanitized_config(config@),
            old(runner).ran(),
            final(runner).ran(),
            old(runner).results(),
            final(runner).results(),
        ),
{
    let ghost c0 = config@;
    let ghost log0 = runner.ran();
    let ghost res0 = runner.results();
    let cfg = config.sanitized();
    let ghost c = cfg@;
    let ghost ss = c.suites;
    proof {
        assert(c == sanitized_config(c0));
        assert(ss.len() <= 3);
    }
    let mut runs: Vec<SiteCompatibilitySuiteRun> = Vec::new();
    let ghost mut outs: Seq<Result<(SuiteMeasurements, Seq<Seq<char>>), Seq<char>>> = Seq::empty();
    assert(ss.take(0) =~= Seq::<SiteCompatibilitySuite>::empty());
    assert(log0 + suite_calls(c, ss.take(0)) =~= log0);
    assert(suite_run_views(runs@) =~= Seq::<SuiteRunView>::empty());
    let mut i: usize = 0;
    while i < cfg.suites.len()
        invariant
            i <= cfg.suites@.len(),
            cfg@ == c,
            c0 == config@,
            c == sanitized_config(c0),
            c.suites == ss,
            ss.len() <= 3,
            outs.len() == i,
            runs@.len() == i,
            harness_runs(c, ss.take(i as int), outs) == Ok::<Seq<SuiteRunView>, Seq<char>>(suite_run_views(runs@)),
            runner.ran() == log0 + suite_calls(c, ss.take(i as int)),
            runner.results() == res0 + outs,
            log0 == old(runner).ran(),
            res0 == old(runner).results(),
        decreases cfg.suites.len() - i,
    {
        let suite = cfg.suites[i];
        let script = build_site_compatibility_script(suite, &cfg);
        let result = runner.run_suite(suite, &cfg, script.as_str());
        let ghost ov = outcome_view(result);
        proof {
            assert(suite_calls(c, ss.take(i as int + 1)) =~= suite_calls(c, ss.take(i as int)).push(
                (suite, site_script(suite, c)),
            ));
            assert(runner.ran() =~= log0 + suite_calls(c, ss.take(i as int + 1)));
            assert(ss.take(i as int + 1).drop_last() =~= ss.take(i as int));
            assert(outs.push(ov).drop_last() =~= outs);
        }
        match result {
            Err(e) => {
                let ghost full = outs.push(ov);
                proof {
                    assert(runner.results() =~= res0 + full);
                    assert(runner.results().skip(res0.len() as int) =~= full);
                    assert(harness_runs(c, ss.take(i as int + 1), full) == Err::<Seq<SuiteRunView>, Seq<char>>(e@));
                    assert(runner.ran() == log0 + suite_calls(c, c.suites.take(full.len() as int)));
                }
                let r: Result<SiteCompatibilityHarnessRun, String> = Err(e);
                assert(harness_outcome(r, sanitized_config(c0), log0, runner.ran(), res0, runner.results()));
                return r;
            },
            Ok((m, console)) => {
                let metrics = site_metrics(&m, script.as_str(), console.len());
                let ghost cv = string_views(console@);
                assert(cv.len() == console@.len());
                let run = score_suite(suite, &cfg, metrics, console);
                let ghost rv = run@;
                let ghost before = runs@;
                runs.push(run);
                proof {
                    assert(suite_run_views(runs@) =~= suite_run_views(before).push(rv));
                    outs = outs.push(ov);
                }
            },
        }
        i = i + 1;
    }
    assert(ss.take(i as int) =~= ss);
    assert(runner.ran() == log0 + suite_calls(c, ss));
    assert(runner.results().skip(res0.len() as int) =~= outs);
    let aggregate = aggregate_runs(&runs);
    assert(harness_runs(sanitized_config(c0), sanitized_config(c0).suites, outs) == Ok::<
        Seq<SuiteRunView>,
        Seq<char>,
    >(suite_run_views(runs@)));
    let r: Result<SiteCompatibilityHarnessRun, String> = Ok(SiteCompatibilityHarnessRun { config: cfg, aggregate, suites: runs });
    assert(harness_outcome(r, sanitized_config(c0), log0, runner.ran(), res0, runner.results()));
    r
}


/// Sanitizing twice changes nothing more than sanitizing once.
pub proof fn lemma_sanitize_idempotent(c: HarnessConfigView)
    ensures
        sanitized_config(sanitized_config(c)) == sanitized_config(c),
{
    let s1 = sanitized_config(c);
    if c.suites.len() == 0 {
        lemma_all_suites_listed();
    } else {
        let x = c.suites;
        let g = SiteCompatibilitySuite::GoogleSearch;
        let h = SiteCompatibilitySuite::GitHubRepository;
        let w = SiteCompatibilitySuite::WikipediaArticle;
        lemma_set_list_contains(x, g);
        lemma_set_list_contains(x, h);
        lemma_set_list_contains(x, w);
        let any = x[0];
        assert(x.contains(any));
        assert(any == g || any == h || any == w);
        assert(s1.suites.len() > 0);
        assert(suite_set_list(s1.suites) =~= s1.suites);
    }
}

proof fn lemma_all_suites_listed()
    ensures
        suite_set_list(all_suites()) == all_suites(),
{
    assert(all_suites()[0] == SiteCompatibilitySuite::GoogleSearch);
    assert(all_suites()[1] == SiteCompatibilitySuite::GitHubRepository);
    assert(all_suites()[2] == SiteCompatibilitySuite::WikipediaArticle);
    assert(suite_set_list(all_suites()) =~= all_suites());
}

proof fn lemma_set_list_contains(x: Seq<SiteCompatibilitySuite>, s: SiteCompatibilitySuite)
    ensures
        suite_set_list(x).contains(s) == x.contains(s),
{
    let l = suite_set_list(x);
    if x.contains(s) {
        let k = if s == SiteCompatibilitySuite::GoogleSearch {
            0int
        } else if s == SiteCompatibilitySuite::GitHubRepository {
            if x.contains(SiteCompatibilitySuite::GoogleSearch) {
                1int
            } else {
                0int
            }
        } else {
            (if x.contains(SiteCompatibilitySuite::GoogleSearch) {
                1int
            } else {
                0int
            }) + (if x.contains(SiteCompatibilitySuite::GitHubRepository) {
                1int
            } else {
                0int
            })
        };
        assert(l[k] == s);
    }
    if l.contains(s) {
        let k = choose|k: int| 0 <= k < l.len() && l[k] == s;
        assert(l[k] == s);
    }
}

/// Every profile's configuration is already sanitized.
pub proof fn lemma_profiles_are_sanitized(p: SiteCompatibilityProfile)
    ensures
        sanitized_config(profile_config(p)) == profile_config(p),
{
    lemma_all_suites_listed();
}

/// The report counts every suite once: passed and failed add up to the
/// suites, and the average score is a percentage.
pub proof fn lemma_aggregate_counts(s: Seq<SuiteRunView>)
    requires
        s.len() <= usize::MAX,
    ensures
        aggregate_of(s).passed + aggregate_of(s).failed == aggregate_of(s).suites,
        aggregate_of(s).suites == s.len(),
        aggregate_of(s).average_score_percent <= 100,
{
    lemma_totals_bounded(s);
}

} // verus!
