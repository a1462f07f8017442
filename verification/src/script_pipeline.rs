//! Script pipeline: the browser document lifecycle around script execution.
//!
//! Parser-blocking scripts run as they are discovered, async scripts by the
//! chosen policy, defer scripts once parsing finishes; then DOMContentLoaded
//! and load fire, and every finished script asks for a reflow. Running a
//! script is the host's work: the pipeline hands the source to a
//! [`ScriptExecutor`] and records what came back.

use crate::event_loop::{copy_summary, sat_inc, EventLoopRunSummary, SummaryView};
use crate::keyed::{keys_sorted, table_get, table_insert, table_keys, table_map};
use crate::security::{clone_strings, string_views};
use crate::text::{byte_len, chars_of, concat, decimal, decimal_string, owned, utf8_len};
use vstd::prelude::*;

verus! {

broadcast use vstd::string::group_string_axioms;

// ---------------------------------------------------------------------------
// Scripts
// ---------------------------------------------------------------------------

/// Script kind.
#[derive(Debug, Clone, Copy, PartialEq, Eq, Structural)]
pub enum ScriptKind {
    /// Classic JavaScript script.
    Classic,
    /// ES module script.
    Module,
}

/// Script loading/execution mode.
#[derive(Debug, Clone, Copy, PartialEq, Eq, Structural)]
pub enum ScriptLoadMode {
    /// Parser-blocking classic behavior.
    ParserBlocking,
    /// Async script behavior.
    Async,
    /// Defer script behavior.
    Defer,
    /// Dynamically injected script behavior.
    Dynamic,
}

/// Script source.
#[derive(Debug, Clone, PartialEq, Eq)]
pub enum ScriptSource {
    /// Inline source.
    Inline {
        /// Script source.
        source: String,
    },
    /// External URL.
    External {
        /// Script URL.
        url: String,
    },
}

/// Model of a script source.
pub enum SourceView {
    Inline(Seq<char>),
    External(Seq<char>),
}

impl View for ScriptSource {
    type V = SourceView;

    open spec fn view(&self) -> SourceView {
        match self {
            ScriptSource::Inline { source } => SourceView::Inline(source@),
            ScriptSource::External { url } => SourceView::External(url@),
        }
    }
}

/// The label of a source: `inline`, or the URL.
pub open spec fn source_label(s: SourceView) -> Seq<char> {
    match s {
        SourceView::Inline(_) => "inline"@,
        SourceView::External(url) => url,
    }
}

impl ScriptSource {
    /// Returns a human-readable label.
    pub fn label(&self) -> (r: String)
        ensures
            r@ == source_label(self@),
    {
        match self {
            ScriptSource::Inline { .. } => owned("inline"),
            ScriptSource::External { url } => url.clone(),
        }
    }

    fn copy(&self) -> (c: Self)
        ensures
            c@ == self@,
    {
        match self {
            ScriptSource::Inline { source } => ScriptSource::Inline { source: source.clone() },
            ScriptSource::External { url } => ScriptSource::External { url: url.clone() },
        }
    }
}

fn copy_opt_string(s: &Option<String>) -> (c: Option<String>)
    ensures
        opt_view(c) == opt_view(*s),
{
    match s {
        Some(v) => Some(v.clone()),
        None => None,
    }
}

/// View of an optional string.
pub open spec fn opt_view(s: Option<String>) -> Option<Seq<char>> {
    match s {
        Some(v) => Some(v@),
        None => None,
    }
}

/// Script descriptor discovered by the parser or DOM.
#[derive(Debug, Clone, PartialEq, Eq)]
pub struct ScriptDescriptor {
    /// Stable script id.
    pub id: u64,
    /// Debug label.
    pub label: String,
    /// Script kind.
    pub kind: ScriptKind,
    /// Loading/execution mode.
    pub mode: ScriptLoadMode,
    /// Source.
    pub source: ScriptSource,
    /// Parser-inserted flag.
    pub parser_inserted: bool,
    /// Whether script is blocking render.
    pub render_blocking: bool,
    /// Optional nonce.
    pub nonce: Option<String>,
    /// Optional integrity field.
    pub integrity: Option<String>,
}

/// Model of a script descriptor.
pub struct DescriptorView {
    pub id: u64,
    pub label: Seq<char>,
    pub kind: ScriptKind,
    pub mode: ScriptLoadMode,
    pub source: SourceView,
    pub parser_inserted: bool,
    pub render_blocking: bool,
    pub nonce: Option<Seq<char>>,
    pub integrity: Option<Seq<char>>,
}

impl View for ScriptDescriptor {
    type V = DescriptorView;

    open spec fn view(&self) -> DescriptorView {
        DescriptorView {
            id: self.id,
            label: self.label@,
            kind: self.kind,
            mode: self.mode,
            source: self.source@,
            parser_inserted: self.parser_inserted,
            render_blocking: self.render_blocking,
            nonce: opt_view(self.nonce),
            integrity: opt_view(self.integrity),
        }
    }
}

/// Views of a list of descriptors.
pub open spec fn descriptor_views(s: Seq<ScriptDescriptor>) -> Seq<DescriptorView> {
    s.map_values(|d: ScriptDescriptor| d@)
}

impl ScriptDescriptor {
    /// Creates an inline parser-blocking classic script labelled `inline:<id>`.
    pub fn inline(id: u64, source: &str) -> (d: Self)
        ensures
            d.id == id,
            d.label@ == "inline:"@ + decimal(id as nat),
            d.kind == ScriptKind::Classic,
            d.mode == ScriptLoadMode::ParserBlocking,
            d.source@ == SourceView::Inline(source@),
            d.parser_inserted,
            d.render_blocking,
            d.nonce is None,
            d.integrity is None,
    {
        let digits = decimal_string(id);
        Self {
            id,
            label: concat("inline:", digits.as_str()),
            kind: ScriptKind::Classic,
            mode: ScriptLoadMode::ParserBlocking,
            source: ScriptSource::Inline { source: owned(source) },
            parser_inserted: true,
            render_blocking: true,
            nonce: None,
            integrity: None,
        }
    }

    /// Creates an external classic script labelled by its URL; it blocks
    /// rendering exactly when it is parser-blocking.
    pub fn external(id: u64, url: &str, mode: ScriptLoadMode) -> (d: Self)
        ensures
            d.id == id,
            d.label@ == url@,
            d.kind == ScriptKind::Classic,
            d.mode == mode,
            d.source@ == SourceView::External(url@),
            d.parser_inserted,
            d.render_blocking == (mode == ScriptLoadMode::ParserBlocking),
            d.nonce is None,
            d.integrity is None,
    {
        Self {
            id,
            label: owned(url),
            kind: ScriptKind::Classic,
            mode,
            source: ScriptSource::External { url: owned(url) },
            parser_inserted: true,
            render_blocking: mode == ScriptLoadMode::ParserBlocking,
            nonce: None,
            integrity: None,
        }
    }

    fn copy(&self) -> (c: Self)
        ensures
            c@ == self@,
    {
        Self {
            id: self.id,
            label: self.label.clone(),
            kind: self.kind,
            mode: self.mode,
            source: self.source.copy(),
            parser_inserted: self.parser_inserted,
            render_blocking: self.render_blocking,
            nonce: copy_opt_string(&self.nonce),
            integrity: copy_opt_string(&self.integrity),
        }
    }
}

// ---------------------------------------------------------------------------
// Dirty flags
// ---------------------------------------------------------------------------

/// Dirty flag type.
#[derive(Debug, Clone, Copy, PartialEq, Eq, PartialOrd, Ord, Structural)]
pub enum DirtyFlag {
    /// DOM tree may have changed.
    Dom,
    /// CSS selectors or computed style may have changed.
    Style,
    /// Layout tree needs update.
    Layout,
    /// Paint plan needs update.
    Paint,
    /// Lifecycle state changed.
    Lifecycle,
}

/// Dirty flag set.
#[derive(Debug, Clone, Copy, PartialEq, Eq, Structural)]
pub struct DirtyFlags {
    dom: bool,
    style: bool,
    layout: bool,
    paint: bool,
    lifecycle: bool,
}

impl View for DirtyFlags {
    type V = Set<DirtyFlag>;

    closed spec fn view(&self) -> Set<DirtyFlag> {
        Set::new(
            |f: DirtyFlag|
                match f {
                    DirtyFlag::Dom => self.dom,
                    DirtyFlag::Style => self.style,
                    DirtyFlag::Layout => self.layout,
                    DirtyFlag::Paint => self.paint,
                    DirtyFlag::Lifecycle => self.lifecycle,
                },
        )
    }
}

/// Flags after a script ran: DOM, style, layout and paint.
pub open spec fn script_flags() -> Set<DirtyFlag> {
    set![DirtyFlag::Dom, DirtyFlag::Style, DirtyFlag::Layout, DirtyFlag::Paint]
}

/// Flags after a lifecycle change: lifecycle and paint.
pub open spec fn lifecycle_flags() -> Set<DirtyFlag> {
    set![DirtyFlag::Lifecycle, DirtyFlag::Paint]
}

/// The flags of a set in ascending order.
pub open spec fn flag_list(s: Set<DirtyFlag>) -> Seq<DirtyFlag> {
    (if s.contains(DirtyFlag::Dom) { seq![DirtyFlag::Dom] } else { Seq::empty() })
        + (if s.contains(DirtyFlag::Style) { seq![DirtyFlag::Style] } else { Seq::empty() })
        + (if s.contains(DirtyFlag::Layout) { seq![DirtyFlag::Layout] } else { Seq::empty() })
        + (if s.contains(DirtyFlag::Paint) { seq![DirtyFlag::Paint] } else { Seq::empty() })
        + (if s.contains(DirtyFlag::Lifecycle) { seq![DirtyFlag::Lifecycle] } else { Seq::empty() })
}

impl DirtyFlags {
    /// Creates a conservative post-script dirty state.
    pub fn conservative_script() -> (f: Self)
        ensures
            f@ == script_flags(),
    {
        let f = Self { dom: true, style: true, layout: true, paint: true, lifecycle: false };
        assert(f@ =~= script_flags());
        f
    }

    /// Creates lifecycle dirty state.
    pub fn lifecycle() -> (f: Self)
        ensures
            f@ == lifecycle_flags(),
    {
        let f = Self { dom: false, style: false, layout: false, paint: true, lifecycle: true };
        assert(f@ =~= lifecycle_flags());
        f
    }

    /// Inserts a flag.
    pub fn insert(&mut self, flag: DirtyFlag)
        ensures
            final(self)@ == old(self)@.insert(flag),
    {
        match flag {
            DirtyFlag::Dom => self.dom = true,
            DirtyFlag::Style => self.style = true,
            DirtyFlag::Layout => self.layout = true,
            DirtyFlag::Paint => self.paint = true,
            DirtyFlag::Lifecycle => self.lifecycle = true,
        }
        assert(self@ =~= old(self)@.insert(flag));
    }

    /// Returns whether a flag is present.
    pub fn contains(&self, flag: DirtyFlag) -> (r: bool)
        ensures
            r == self@.contains(flag),
    {
        match flag {
            DirtyFlag::Dom => self.dom,
            DirtyFlag::Style => self.style,
            DirtyFlag::Layout => self.layout,
            DirtyFlag::Paint => self.paint,
            DirtyFlag::Lifecycle => self.lifecycle,
        }
    }

    /// Returns the flags in ascending order.
    pub fn flags(&self) -> (r: Vec<DirtyFlag>)
        ensures
            r@ == flag_list(self@),
    {
        let mut r: Vec<DirtyFlag> = Vec::new();
        if self.dom {
            r.push(DirtyFlag::Dom);
        }
        if self.style {
            r.push(DirtyFlag::Style);
        }
        if self.layout {
            r.push(DirtyFlag::Layout);
        }
        if self.paint {
            r.push(DirtyFlag::Paint);
        }
        if self.lifecycle {
            r.push(DirtyFlag::Lifecycle);
        }
        assert(self@.contains(DirtyFlag::Dom) == self.dom);
        assert(self@.contains(DirtyFlag::Style) == self.style);
        assert(self@.contains(DirtyFlag::Layout) == self.layout);
        assert(self@.contains(DirtyFlag::Paint) == self.paint);
        assert(self@.contains(DirtyFlag::Lifecycle) == self.lifecycle);
        assert(r@ =~= flag_list(self@));
        r
    }

    /// Returns true if empty.
    pub fn is_empty(&self) -> (r: bool)
        ensures
            r == (self@ == Set::<DirtyFlag>::empty()),
    {
        let r = !(self.dom || self.style || self.layout || self.paint || self.lifecycle);
        if !r {
            let w = if self.dom {
                DirtyFlag::Dom
            } else if self.style {
                DirtyFlag::Style
            } else if self.layout {
                DirtyFlag::Layout
            } else if self.paint {
                DirtyFlag::Paint
            } else {
                DirtyFlag::Lifecycle
            };
            assert(self@.contains(w));
        } else {
            assert(self@ =~= Set::<DirtyFlag>::empty());
        }
        r
    }
}

impl Default for DirtyFlags {
    fn default() -> (f: Self)
        ensures
            f@ == Set::<DirtyFlag>::empty(),
    {
        let f = Self { dom: false, style: false, layout: false, paint: false, lifecycle: false };
        assert(f@ =~= Set::<DirtyFlag>::empty());
        f
    }
}

// ---------------------------------------------------------------------------
// Lifecycle, configuration and metrics
// ---------------------------------------------------------------------------

/// Document lifecycle phase.
#[derive(Debug, Clone, Copy, PartialEq, Eq, Structural)]
pub enum PipelineDocumentPhase {
    /// Parser is still running.
    Loading,
    /// Parser finished, defer scripts may run.
    Interactive,
    /// DOMContentLoaded fired.
    DomContentLoaded,
    /// Load fired or page is ready.
    Complete,
}

/// Async script scheduling policy.
#[derive(Debug, Clone, Copy, PartialEq, Eq, Structural)]
pub enum AsyncSchedulingPolicy {
    /// Execute async scripts as soon as they are discovered and fetched.
    AsSoonAsDiscovered,
    /// Execute async scripts after parsing but before defer scripts.
    AfterParsingBeforeDefer,
    /// Execute async scripts after DOMContentLoaded.
    AfterDomContentLoaded,
}

/// Script pipeline configuration.
#[derive(Debug, Clone, Copy, PartialEq, Eq, Structural)]
pub struct ScriptPipelineConfig {
    /// Async scheduling policy.
    pub async_policy: AsyncSchedulingPolicy,
    /// Continue after script errors.
    pub continue_on_error: bool,
    /// Drain the event loop after every script.
    pub drain_after_each_script: bool,
    /// Install and clear document.currentScript.
    pub manage_current_script: bool,
    /// Conservatively request style/layout/paint after every script.
    pub conservative_reflow_after_script: bool,
    /// Fire DOMContentLoaded during finish_parsing.
    pub fire_dom_content_loaded: bool,
    /// Fire load during finish_document.
    pub fire_load: bool,
}

/// The default configuration: async as soon as discovered, everything else on.
pub open spec fn default_pipeline_config() -> ScriptPipelineConfig {
    ScriptPipelineConfig {
        async_policy: AsyncSchedulingPolicy::AsSoonAsDiscovered,
        continue_on_error: true,
        drain_after_each_script: true,
        manage_current_script: true,
        conservative_reflow_after_script: true,
        fire_dom_content_loaded: true,
        fire_load: true,
    }
}

impl Default for ScriptPipelineConfig {
    fn default() -> (c: Self)
        ensures
            c == default_pipeline_config(),
    {
        Self {
            async_policy: AsyncSchedulingPolicy::AsSoonAsDiscovered,
            continue_on_error: true,
            drain_after_each_script: true,
            manage_current_script: true,
            conservative_reflow_after_script: true,
            fire_dom_content_loaded: true,
            fire_load: true,
        }
    }
}

/// Script pipeline metrics.
#[derive(Debug, Clone, Copy, PartialEq, Eq, Structural)]
pub struct ScriptPipelineMetrics {
    /// Scripts discovered.
    pub scripts_discovered: u64,
    /// Inline scripts.
    pub inline_scripts: u64,
    /// External scripts.
    pub external_scripts: u64,
    /// External fetches attempted.
    pub external_fetches: u64,
    /// Parser-blocking scripts executed.
    pub parser_blocking_scripts: u64,
    /// Async scripts queued.
    pub async_scripts_queued: u64,
    /// Async scripts executed.
    pub async_scripts_executed: u64,
    /// Defer scripts queued.
    pub defer_scripts_queued: u64,
    /// Defer scripts executed.
    pub defer_scripts_executed: u64,
    /// Dynamic scripts executed.
    pub dynamic_scripts_executed: u64,
    /// Total scripts executed.
    pub scripts_executed: u64,
    /// Script execution failures.
    pub script_failures: u64,
    /// document.currentScript sets.
    pub current_script_sets: u64,
    /// document.currentScript clears.
    pub current_script_clears: u64,
    /// Reflow requests.
    pub reflow_requests: u64,
    /// DOMContentLoaded events.
    pub dom_content_loaded_events: u64,
    /// Load events.
    pub load_events: u64,
}

/// All counters zero.
pub open spec fn zero_pipeline_metrics() -> ScriptPipelineMetrics {
    ScriptPipelineMetrics {
        scripts_discovered: 0,
        inline_scripts: 0,
        external_scripts: 0,
        external_fetches: 0,
        parser_blocking_scripts: 0,
        async_scripts_queued: 0,
        async_scripts_executed: 0,
        defer_scripts_queued: 0,
        defer_scripts_executed: 0,
        dynamic_scripts_executed: 0,
        scripts_executed: 0,
        script_failures: 0,
        current_script_sets: 0,
        current_script_clears: 0,
        reflow_requests: 0,
        dom_content_loaded_events: 0,
        load_events: 0,
    }
}

impl Default for ScriptPipelineMetrics {
    fn default() -> (m: Self)
        ensures
            m == zero_pipeline_metrics(),
    {
        Self {
            scripts_discovered: 0,
            inline_scripts: 0,
            external_scripts: 0,
            external_fetches: 0,
            parser_blocking_scripts: 0,
            async_scripts_queued: 0,
            async_scripts_executed: 0,
            defer_scripts_queued: 0,
            defer_scripts_executed: 0,
            dynamic_scripts_executed: 0,
            scripts_executed: 0,
            script_failures: 0,
            current_script_sets: 0,
            current_script_clears: 0,
            reflow_requests: 0,
            dom_content_loaded_events: 0,
            load_events: 0,
        }
    }
}

// ---------------------------------------------------------------------------
// Failures, reflow requests and events
// ---------------------------------------------------------------------------

/// Script execution failure.
#[derive(Debug, Clone, PartialEq, Eq)]
pub struct ScriptExecutionFailure {
    /// Script id.
    pub script_id: u64,
    /// Script label.
    pub label: String,
    /// Error message.
    pub error: String,
}

/// Model of a failure.
pub struct FailureView {
    pub script_id: u64,
    pub label: Seq<char>,
    pub error: Seq<char>,
}

impl View for ScriptExecutionFailure {
    type V = FailureView;

    open spec fn view(&self) -> FailureView {
        FailureView { script_id: self.script_id, label: self.label@, error: self.error@ }
    }
}

impl ScriptExecutionFailure {
    fn copy(&self) -> (c: Self)
        ensures
            c@ == self@,
    {
        Self { script_id: self.script_id, label: self.label.clone(), error: self.error.clone() }
    }
}

/// Views of a list of failures.
pub open spec fn failure_views(s: Seq<ScriptExecutionFailure>) -> Seq<FailureView> {
    s.map_values(|f: ScriptExecutionFailure| f@)
}

/// Reflow request emitted by script pipeline.
#[derive(Debug, Clone, PartialEq, Eq)]
pub struct ReflowRequest {
    /// Triggering script id, when relevant.
    pub script_id: Option<u64>,
    /// Triggering label.
    pub label: String,
    /// Dirty flags.
    pub dirty: DirtyFlags,
    /// Reason.
    pub reason: String,
}

/// Model of a reflow request.
pub struct ReflowView {
    pub script_id: Option<u64>,
    pub label: Seq<char>,
    pub dirty: Set<DirtyFlag>,
    pub reason: Seq<char>,
}

impl View for ReflowRequest {
    type V = ReflowView;

    open spec fn view(&self) -> ReflowView {
        ReflowView {
            script_id: self.script_id,
            label: self.label@,
            dirty: self.dirty@,
            reason: self.reason@,
        }
    }
}

impl ReflowRequest {
    fn copy(&self) -> (c: Self)
        ensures
            c@ == self@,
    {
        Self {
            script_id: self.script_id,
            label: self.label.clone(),
            dirty: self.dirty,
            reason: self.reason.clone(),
        }
    }
}

/// Views of a list of reflow requests.
pub open spec fn reflow_views(s: Seq<ReflowRequest>) -> Seq<ReflowView> {
    s.map_values(|r: ReflowRequest| r@)
}

/// The label of a reflow request: `script:<id>` for a script, else `lifecycle`.
pub open spec fn reflow_label(script_id: Option<u64>) -> Seq<char> {
    match script_id {
        Some(id) => "script:"@ + decimal(id as nat),
        None => "lifecycle"@,
    }
}

/// Pipeline event.
#[derive(Debug, Clone, PartialEq, Eq)]
pub enum PipelineEvent {
    /// Script discovered.
    ScriptDiscovered {
        /// Script id.
        script_id: u64,
        /// Script label.
        label: String,
    },
    /// External script fetched.
    ScriptFetched {
        /// Script id.
        script_id: u64,
        /// Script label.
        label: String,
        /// Fetched source length in bytes.
        bytes: usize,
    },
    /// Script queued.
    ScriptQueued {
        /// Script id.
        script_id: u64,
        /// Script label.
        label: String,
        /// Script load mode.
        mode: ScriptLoadMode,
    },
    /// Script started.
    ScriptStarted {
        /// Script id.
        script_id: u64,
        /// Script label.
        label: String,
        /// Script load mode.
        mode: ScriptLoadMode,
    },
    /// Script finished.
    ScriptFinished {
        /// Script id.
        script_id: u64,
        /// Script label.
        label: String,
    },
    /// Script failed.
    ScriptFailed(ScriptExecutionFailure),
    /// Reflow requested.
    ReflowRequested(ReflowRequest),
    /// Document phase changed.
    DocumentPhaseChanged(PipelineDocumentPhase),
}

/// Model of a pipeline event.
pub enum EventView {
    Discovered { id: u64, label: Seq<char> },
    Fetched { id: u64, label: Seq<char>, bytes: nat },
    Queued { id: u64, label: Seq<char>, mode: ScriptLoadMode },
    Started { id: u64, label: Seq<char>, mode: ScriptLoadMode },
    Finished { id: u64, label: Seq<char> },
    Failed(FailureView),
    Reflow(ReflowView),
    Phase(PipelineDocumentPhase),
}

impl View for PipelineEvent {
    type V = EventView;

    open spec fn view(&self) -> EventView {
        match self {
            PipelineEvent::ScriptDiscovered { script_id, label } => EventView::Discovered {
                id: *script_id,
                label: label@,
            },
            PipelineEvent::ScriptFetched { script_id, label, bytes } => EventView::Fetched {
                id: *script_id,
                label: label@,
                bytes: *bytes as nat,
            },
            PipelineEvent::ScriptQueued { script_id, label, mode } => EventView::Queued {
                id: *script_id,
                label: label@,
                mode: *mode,
            },
            PipelineEvent::ScriptStarted { script_id, label, mode } => EventView::Started {
                id: *script_id,
                label: label@,
                mode: *mode,
            },
            PipelineEvent::ScriptFinished { script_id, label } => EventView::Finished {
                id: *script_id,
                label: label@,
            },
            PipelineEvent::ScriptFailed(f) => EventView::Failed(f@),
            PipelineEvent::ReflowRequested(r) => EventView::Reflow(r@),
            PipelineEvent::DocumentPhaseChanged(p) => EventView::Phase(*p),
        }
    }
}

impl PipelineEvent {
    fn copy(&self) -> (c: Self)
        ensures
            c@ == self@,
    {
        match self {
            PipelineEvent::ScriptDiscovered { script_id, label } => PipelineEvent::ScriptDiscovered {
                script_id: *script_id,
                label: label.clone(),
            },
            PipelineEvent::ScriptFetched { script_id, label, bytes } => PipelineEvent::ScriptFetched {
                script_id: *script_id,
                label: label.clone(),
                bytes: *bytes,
            },
            PipelineEvent::ScriptQueued { script_id, label, mode } => PipelineEvent::ScriptQueued {
                script_id: *script_id,
                label: label.clone(),
                mode: *mode,
            },
            PipelineEvent::ScriptStarted { script_id, label, mode } => PipelineEvent::ScriptStarted {
                script_id: *script_id,
                label: label.clone(),
                mode: *mode,
            },
            PipelineEvent::ScriptFinished { script_id, label } => PipelineEvent::ScriptFinished {
                script_id: *script_id,
                label: label.clone(),
            },
            PipelineEvent::ScriptFailed(f) => PipelineEvent::ScriptFailed(f.copy()),
            PipelineEvent::ReflowRequested(r) => PipelineEvent::ReflowRequested(r.copy()),
            PipelineEvent::DocumentPhaseChanged(p) => PipelineEvent::DocumentPhaseChanged(*p),
        }
    }
}

/// Views of a list of events.
pub open spec fn event_views(s: Seq<PipelineEvent>) -> Seq<EventView> {
    s.map_values(|e: PipelineEvent| e@)
}

/// One script run record.
#[derive(Debug, Clone)]
pub struct PipelineScriptRun {
    /// Script descriptor.
    pub descriptor: ScriptDescriptor,
    /// Source bytes.
    pub source_bytes: usize,
    /// Event-loop summary after execution, if drained.
    pub summary: Option<EventLoopRunSummary>,
}

/// Model of a run record.
pub struct RunView {
    pub descriptor: DescriptorView,
    pub source_bytes: nat,
    pub summary: Option<SummaryView>,
}

/// View of an optional summary.
pub open spec fn summary_opt_view(s: Option<EventLoopRunSummary>) -> Option<SummaryView> {
    match s {
        Some(x) => Some(x@),
        None => None,
    }
}

impl View for PipelineScriptRun {
    type V = RunView;

    open spec fn view(&self) -> RunView {
        RunView {
            descriptor: self.descriptor@,
            source_bytes: self.source_bytes as nat,
            summary: summary_opt_view(self.summary),
        }
    }
}

/// Views of a list of run records.
pub open spec fn run_views(s: Seq<PipelineScriptRun>) -> Seq<RunView> {
    s.map_values(|r: PipelineScriptRun| r@)
}

/// Script pipeline run result.
#[derive(Debug, Clone)]
pub struct ScriptPipelineRun {
    /// Metrics.
    pub metrics: ScriptPipelineMetrics,
    /// Events.
    pub events: Vec<PipelineEvent>,
    /// Failures.
    pub failures: Vec<ScriptExecutionFailure>,
    /// Script run records.
    pub scripts: Vec<PipelineScriptRun>,
    /// Last event-loop summary.
    pub last_summary: Option<EventLoopRunSummary>,
    /// Final phase.
    pub phase: PipelineDocumentPhase,
}

// ---------------------------------------------------------------------------
// Host interfaces
// ---------------------------------------------------------------------------

/// Script resource loader.
pub trait ScriptResourceLoader {
    /// What loading `url` gives: the source, or the error message.
    spec fn load_result(&self, url: Seq<char>) -> Result<Seq<char>, Seq<char>>;

    /// Loads script source by URL; an error carries a message.
    fn load_script(&self, url: &str) -> (r: Result<String, String>)
        ensures
            text_view(r) == self.load_result(url@),
    ;
}

/// One call a pipeline makes on its hooks.
pub enum HookCall {
    BeforeScript(DescriptorView),
    AfterScript(DescriptorView),
    ScriptFailed(DescriptorView, Seq<char>),
    RequestReflow(ReflowView),
    DomContentLoaded,
    Load,
}

/// Script pipeline hooks.
pub trait ScriptPipelineHooks {
    /// The calls these hooks received, in order.
    spec fn calls(&self) -> Seq<HookCall>;

    /// Called before script execution.
    fn before_script(&mut self, descriptor: &ScriptDescriptor)
        ensures
            final(self).calls() == old(self).calls().push(HookCall::BeforeScript(descriptor@)),
    ;

    /// Called after successful script execution.
    fn after_script(&mut self, descriptor: &ScriptDescriptor)
        ensures
            final(self).calls() == old(self).calls().push(HookCall::AfterScript(descriptor@)),
    ;

    /// Called after script failure.
    fn script_failed(&mut self, descriptor: &ScriptDescriptor, error: &str)
        ensures
            final(self).calls() == old(self).calls().push(HookCall::ScriptFailed(descriptor@, error@)),
    ;

    /// Called when reflow is requested.
    fn request_reflow(&mut self, request: &ReflowRequest)
        ensures
            final(self).calls() == old(self).calls().push(HookCall::RequestReflow(request@)),
    ;

    /// Called when DOMContentLoaded fires.
    fn dom_content_loaded(&mut self)
        ensures
            final(self).calls() == old(self).calls().push(HookCall::DomContentLoaded),
    ;

    /// Called when load fires.
    fn load(&mut self)
        ensures
            final(self).calls() == old(self).calls().push(HookCall::Load),
    ;
}

/// What `document.currentScript` shows while a script runs.
#[derive(Debug, Clone, PartialEq, Eq)]
pub struct CurrentScript {
    /// Element id: `syljs-script-<id>`.
    pub id: String,
    /// The script URL, empty for inline scripts.
    pub src: String,
    /// The script is async.
    pub is_async: bool,
    /// The script is deferred.
    pub defer: bool,
    /// `text/javascript` or `module`.
    pub script_type: String,
    /// The parser inserted the script.
    pub parser_inserted: bool,
}

/// The `src` of a script: its URL, or nothing when inline.
pub open spec fn script_src(s: SourceView) -> Seq<char> {
    match s {
        SourceView::External(url) => url,
        SourceView::Inline(_) => Seq::empty(),
    }
}

/// The `type` of a script.
pub open spec fn script_type_name(k: ScriptKind) -> Seq<char> {
    match k {
        ScriptKind::Classic => "text/javascript"@,
        ScriptKind::Module => "module"@,
    }
}

/// The `document.currentScript` object of a script.
pub fn current_script(d: &ScriptDescriptor) -> (c: CurrentScript)
    ensures
        c.id@ == "syljs-script-"@ + decimal(d.id as nat),
        c.src@ == script_src(d.source@),
        c.is_async == (d.mode == ScriptLoadMode::Async),
        c.defer == (d.mode == ScriptLoadMode::Defer),
        c.script_type@ == script_type_name(d.kind),
        c.parser_inserted == d.parser_inserted,
{
    let digits = decimal_string(d.id);
    let src = match &d.source {
        ScriptSource::External { url } => url.clone(),
        ScriptSource::Inline { .. } => String::new(),
    };
    let script_type = match d.kind {
        ScriptKind::Classic => owned("text/javascript"),
        ScriptKind::Module => owned("module"),
    };
    CurrentScript {
        id: concat("syljs-script-", digits.as_str()),
        src,
        is_async: d.mode == ScriptLoadMode::Async,
        defer: d.mode == ScriptLoadMode::Defer,
        script_type,
        parser_inserted: d.parser_inserted,
    }
}

/// The engine that runs scripts: parses, compiles and executes a source,
/// and drains its event loop when asked. Nothing is assumed of what it
/// returns; the pipeline records whatever comes back.
pub trait ScriptExecutor {
    /// The source texts this engine was handed to run, in order.
    spec fn executed(&self) -> Seq<Seq<char>>;

    /// What this engine returned for each script it ran, in order.
    spec fn returned(&self) -> Seq<Result<Option<SummaryView>, Seq<char>>>;

    /// Installs (`Some`) or clears (`None`) `document.currentScript`.
    fn set_current_script(&mut self, script: Option<&CurrentScript>)
        ensures
            final(self).executed() == old(self).executed(),
            final(self).returned() == old(self).returned(),
    ;

    /// Runs one script; with `drain_after`, also drains the event loop and
    /// returns the drain summary.
    fn execute(&mut self, kind: ScriptKind, source: &str, drain_after: bool) -> (r: Result<
        Option<EventLoopRunSummary>,
        String,
    >)
        ensures
            final(self).executed() == old(self).executed().push(source@),
            final(self).returned() == old(self).returned().push(executed_view(r)),
    ;
}

// ---------------------------------------------------------------------------
// Research loader and hooks
// ---------------------------------------------------------------------------

/// Research script loader: an in-memory table from URL to source.
#[derive(Debug)]
pub struct ResearchScriptResourceLoader {
    scripts: Vec<(String, String)>,
}

impl View for ResearchScriptResourceLoader {
    type V = Map<Seq<char>, Seq<char>>;

    closed spec fn view(&self) -> Map<Seq<char>, Seq<char>> {
        table_map(self.scripts@).map_values(|s: String| s@)
    }
}

/// The message of a failed script load.
pub open spec fn not_found_message(url: Seq<char>) -> Seq<char> {
    "script resource not found: "@ + url
}

impl ResearchScriptResourceLoader {
    #[verifier::type_invariant]
    spec fn wf(self) -> bool {
        keys_sorted(self.scripts@)
    }

    /// Registers (or replaces) the source of a script URL.
    pub fn register_script(&mut self, url: &str, source: &str)
        ensures
            final(self)@ == old(self)@.insert(url@, source@),
    {
        proof {
            use_type_invariant(&*self);
        }
        let mut scripts: Vec<(String, String)> = Vec::new();
        std::mem::swap(&mut scripts, &mut self.scripts);
        let ghost before = scripts@;
        table_insert(&mut scripts, owned(url), owned(source));
        proof {
            let m0 = table_map(before);
            let m1 = table_map(scripts@);
            assert(m1.map_values(|s: String| s@) =~= m0.map_values(|s: String| s@).insert(
                url@,
                source@,
            ));
        }
        self.scripts = scripts;
    }

    /// Returns registered URLs in ascending order.
    pub fn urls(&self) -> (r: Vec<String>)
        ensures
            string_views(r@).to_set() == self@.dom(),
            string_views(r@).len() == r@.len(),
            forall|i: int, j: int|
                0 <= i < j < r@.len() ==> crate::keyed::lex_lt(#[trigger] r@[i]@, #[trigger] r@[j]@),
    {
        proof {
            use_type_invariant(self);
        }
        let mut r: Vec<String> = Vec::new();
        let mut i: usize = 0;
        while i < self.scripts.len()
            invariant
                i <= self.scripts@.len(),
                r@.len() == i,
                forall|j: int| 0 <= j < i ==> #[trigger] r@[j] == self.scripts@[j].0,
            decreases self.scripts.len() - i,
        {
            r.push(self.scripts[i].0.clone());
            i = i + 1;
        }
        proof {
            let keys = string_views(r@);
            let d = self@.dom();
            assert forall|k: Seq<char>| keys.to_set().contains(k) implies d.contains(k) by {
                let j = choose|j: int| 0 <= j < keys.len() && keys[j] == k;
                crate::keyed::lemma_table_entry(self.scripts@, j);
            }
            assert forall|k: Seq<char>| d.contains(k) implies keys.to_set().contains(k) by {
                let j = crate::keyed::key_pos(self.scripts@, k);
                assert(keys[j] == k);
            }
            assert(keys.to_set() =~= d);
        }
        r
    }
}

impl Default for ResearchScriptResourceLoader {
    fn default() -> (l: Self)
        ensures
            l@ == Map::<Seq<char>, Seq<char>>::empty(),
    {
        let l = Self { scripts: Vec::new() };
        proof {
            crate::keyed::lemma_table_empty(l.scripts@);
            assert(l@ =~= Map::<Seq<char>, Seq<char>>::empty());
        }
        l
    }
}

impl ScriptResourceLoader for ResearchScriptResourceLoader {
    open spec fn load_result(&self, url: Seq<char>) -> Result<Seq<char>, Seq<char>> {
        if self@.dom().contains(url) {
            Ok(self@[url])
        } else {
            Err(not_found_message(url))
        }
    }

    fn load_script(&self, url: &str) -> (r: Result<String, String>)
        ensures
            match r {
                Ok(s) => self@.dom().contains(url@) && s@ == self@[url@],
                Err(e) => !self@.dom().contains(url@) && e@ == not_found_message(url@),
            },
    {
        proof {
            use_type_invariant(self);
        }
        let key = chars_of(url);
        match table_get(&self.scripts, key.as_slice()) {
            Some(s) => Ok(s.clone()),
            None => Err(concat("script resource not found: ", url)),
        }
    }
}

/// Research reflow hook collector.
pub struct ResearchReflowHooks {
    before: Vec<u64>,
    after: Vec<u64>,
    failed: Vec<ScriptExecutionFailure>,
    reflows: Vec<ReflowRequest>,
    dom_content_loaded_count: u64,
    load_count: u64,
    calls: Ghost<Seq<HookCall>>,
}

/// Model of the collected hook calls.
pub struct HooksView {
    pub before: Seq<u64>,
    pub after: Seq<u64>,
    pub failures: Seq<FailureView>,
    pub reflows: Seq<ReflowView>,
    pub dom_content_loaded: u64,
    pub load: u64,
}

/// Hooks that have recorded nothing.
pub open spec fn empty_hooks() -> HooksView {
    HooksView {
        before: Seq::empty(),
        after: Seq::empty(),
        failures: Seq::empty(),
        reflows: Seq::empty(),
        dom_content_loaded: 0,
        load: 0,
    }
}

/// What recording one call adds.
pub open spec fn record_call(h: HooksView, c: HookCall) -> HooksView {
    match c {
        HookCall::BeforeScript(d) => HooksView { before: h.before.push(d.id), ..h },
        HookCall::AfterScript(d) => HooksView { after: h.after.push(d.id), ..h },
        HookCall::ScriptFailed(d, e) => HooksView {
            failures: h.failures.push(FailureView { script_id: d.id, label: d.label, error: e }),
            ..h
        },
        HookCall::RequestReflow(r) => HooksView { reflows: h.reflows.push(r), ..h },
        HookCall::DomContentLoaded => HooksView { dom_content_loaded: sat_inc(h.dom_content_loaded), ..h },
        HookCall::Load => HooksView { load: sat_inc(h.load), ..h },
    }
}

/// What recording the calls in order gives.
pub open spec fn record_calls(h: HooksView, cs: Seq<HookCall>) -> HooksView
    decreases cs.len(),
{
    if cs.len() == 0 {
        h
    } else {
        record_call(record_calls(h, cs.drop_last()), cs.last())
    }
}

impl View for ResearchReflowHooks {
    type V = HooksView;

    closed spec fn view(&self) -> HooksView {
        HooksView {
            before: self.before@,
            after: self.after@,
            failures: failure_views(self.failed@),
            reflows: reflow_views(self.reflows@),
            dom_content_loaded: self.dom_content_loaded_count,
            load: self.load_count,
        }
    }
}

fn copy_ids(v: &Vec<u64>) -> (r: Vec<u64>)
    ensures
        r@ == v@,
{
    let mut r: Vec<u64> = Vec::new();
    let mut i: usize = 0;
    while i < v.len()
        invariant
            i <= v@.len(),
            r@ == v@.take(i as int),
        decreases v.len() - i,
    {
        r.push(v[i]);
        i = i + 1;
        assert(r@ =~= v@.take(i as int));
    }
    assert(v@.take(v.len() as int) =~= v@);
    r
}

impl ResearchReflowHooks {
    #[verifier::type_invariant]
    spec fn recorded(self) -> bool {
        self@ == record_calls(empty_hooks(), self.calls@)
    }

    /// Takes the hooks apart, leaving empty ones in their place.
    fn take(&mut self) -> (h: Self)
        ensures
            h == *old(self),
    {
        let mut h = Self::default();
        std::mem::swap(&mut h, self);
        h
    }

    /// Before-script ids, in call order.
    pub fn before_script_ids(&self) -> (r: Vec<u64>)
        ensures
            self@ == record_calls(empty_hooks(), self.calls()),
            r@ == self@.before,
    {
        proof {
            use_type_invariant(self);
        }
        copy_ids(&self.before)
    }

    /// After-script ids, in call order.
    pub fn after_script_ids(&self) -> (r: Vec<u64>)
        ensures
            self@ == record_calls(empty_hooks(), self.calls()),
            r@ == self@.after,
    {
        proof {
            use_type_invariant(self);
        }
        copy_ids(&self.after)
    }

    /// Failures, in call order.
    pub fn failures(&self) -> (r: Vec<ScriptExecutionFailure>)
        ensures
            self@ == record_calls(empty_hooks(), self.calls()),
            failure_views(r@) == self@.failures,
    {
        proof {
            use_type_invariant(self);
        }
        let mut r: Vec<ScriptExecutionFailure> = Vec::new();
        let mut i: usize = 0;
        while i < self.failed.len()
            invariant
                i <= self.failed@.len(),
                r@.len() == i,
                forall|k: int| 0 <= k < i ==> (#[trigger] r@[k])@ == self.failed@[k]@,
            decreases self.failed.len() - i,
        {
            r.push(self.failed[i].copy());
            i = i + 1;
        }
        assert(failure_views(r@) =~= failure_views(self.failed@));
        r
    }

    /// Reflow requests, in call order.
    pub fn reflow_requests(&self) -> (r: Vec<ReflowRequest>)
        ensures
            self@ == record_calls(empty_hooks(), self.calls()),
            reflow_views(r@) == self@.reflows,
    {
        proof {
            use_type_invariant(self);
        }
        let mut r: Vec<ReflowRequest> = Vec::new();
        let mut i: usize = 0;
        while i < self.reflows.len()
            invariant
                i <= self.reflows@.len(),
                r@.len() == i,
                forall|k: int| 0 <= k < i ==> (#[trigger] r@[k])@ == self.reflows@[k]@,
            decreases self.reflows.len() - i,
        {
            r.push(self.reflows[i].copy());
            i = i + 1;
        }
        assert(reflow_views(r@) =~= reflow_views(self.reflows@));
        r
    }

    /// DOMContentLoaded count.
    pub fn dom_content_loaded_count(&self) -> (r: u64)
        ensures
            self@ == record_calls(empty_hooks(), self.calls()),
            r == self@.dom_content_loaded,
    {
        proof {
            use_type_invariant(self);
        }
        self.dom_content_loaded_count
    }

    /// Load count.
    pub fn load_count(&self) -> (r: u64)
        ensures
            self@ == record_calls(empty_hooks(), self.calls()),
            r == self@.load,
    {
        proof {
            use_type_invariant(self);
        }
        self.load_count
    }
}

impl Default for ResearchReflowHooks {
    fn default() -> (h: Self)
        ensures
            h@.before.len() == 0,
            h@.after.len() == 0,
            h@.failures.len() == 0,
            h@.reflows.len() == 0,
            h@.dom_content_loaded == 0,
            h@.load == 0,
            h.calls().len() == 0,
    {
        assert(failure_views(Seq::<ScriptExecutionFailure>::empty()) =~= Seq::<FailureView>::empty());
        assert(reflow_views(Seq::<ReflowRequest>::empty()) =~= Seq::<ReflowView>::empty());
        Self {
            before: Vec::new(),
            after: Vec::new(),
            failed: Vec::new(),
            reflows: Vec::new(),
            dom_content_loaded_count: 0,
            load_count: 0,
            calls: Ghost(Seq::empty()),
        }
    }
}

impl ScriptPipelineHooks for ResearchReflowHooks {
    closed spec fn calls(&self) -> Seq<HookCall> {
        self.calls@
    }

    fn before_script(&mut self, descriptor: &ScriptDescriptor)
        ensures
            final(self)@ == (HooksView { before: old(self)@.before.push(descriptor.id), ..old(self)@ }),
    {
        let h = self.take();
        let ghost c0 = h.calls@;
        proof {
            use_type_invariant(&h);
        }
        let ResearchReflowHooks { mut before, mut after, mut failed, mut reflows, mut dom_content_loaded_count, mut load_count, calls } = h;
        before.push(descriptor.id);
        let ghost c1 = c0.push(HookCall::BeforeScript(descriptor@));
        assert(c1.drop_last() =~= c0);
        *self = ResearchReflowHooks { before, after, failed, reflows, dom_content_loaded_count, load_count, calls: Ghost(c1) };
    }

    fn after_script(&mut self, descriptor: &ScriptDescriptor)
        ensures
            final(self)@ == (HooksView { after: old(self)@.after.push(descriptor.id), ..old(self)@ }),
    {
        let h = self.take();
        let ghost c0 = h.calls@;
        proof {
            use_type_invariant(&h);
        }
        let ResearchReflowHooks { mut before, mut after, mut failed, mut reflows, mut dom_content_loaded_count, mut load_count, calls } = h;
        after.push(descriptor.id);
        let ghost c1 = c0.push(HookCall::AfterScript(descriptor@));
        assert(c1.drop_last() =~= c0);
        *self = ResearchReflowHooks { before, after, failed, reflows, dom_content_loaded_count, load_count, calls: Ghost(c1) };
    }

    fn script_failed(&mut self, descriptor: &ScriptDescriptor, error: &str)
        ensures
            final(self)@ == (HooksView {
                failures: old(self)@.failures.push(
                    FailureView { script_id: descriptor.id, label: descriptor.label@, error: error@ },
                ),
                ..old(self)@
            }),
    {
        let h = self.take();
        let ghost c0 = h.calls@;
        proof {
            use_type_invariant(&h);
        }
        let ResearchReflowHooks { mut before, mut after, mut failed, mut reflows, mut dom_content_loaded_count, mut load_count, calls } = h;
        let ghost f0 = failed@;
        failed.push(
            ScriptExecutionFailure {
                script_id: descriptor.id,
                label: descriptor.label.clone(),
                error: owned(error),
            },
        );
        assert(failure_views(failed@) =~= failure_views(f0).push(
            FailureView { script_id: descriptor.id, label: descriptor.label@, error: error@ },
        ));
        let ghost c1 = c0.push(HookCall::ScriptFailed(descriptor@, error@));
        assert(c1.drop_last() =~= c0);
        *self = ResearchReflowHooks { before, after, failed, reflows, dom_content_loaded_count, load_count, calls: Ghost(c1) };
    }

    fn request_reflow(&mut self, request: &ReflowRequest)
        ensures
            final(self)@ == (HooksView { reflows: old(self)@.reflows.push(request@), ..old(self)@ }),
    {
        let h = self.take();
        let ghost c0 = h.calls@;
        proof {
            use_type_invariant(&h);
        }
        let ResearchReflowHooks { mut before, mut after, mut failed, mut reflows, mut dom_content_loaded_count, mut load_count, calls } = h;
        let ghost r0 = reflows@;
        reflows.push(request.copy());
        assert(reflow_views(reflows@) =~= reflow_views(r0).push(request@));
        let ghost c1 = c0.push(HookCall::RequestReflow(request@));
        assert(c1.drop_last() =~= c0);
        *self = ResearchReflowHooks { before, after, failed, reflows, dom_content_loaded_count, load_count, calls: Ghost(c1) };
    }

    fn dom_content_loaded(&mut self)
        ensures
            final(self)@ == (HooksView {
                dom_content_loaded: sat_inc(old(self)@.dom_content_loaded),
                ..old(self)@
            }),
    {
        let h = self.take();
        let ghost c0 = h.calls@;
        proof {
            use_type_invariant(&h);
        }
        let ResearchReflowHooks { mut before, mut after, mut failed, mut reflows, mut dom_content_loaded_count, mut load_count, calls } = h;
        dom_content_loaded_count = dom_content_loaded_count.saturating_add(1);
        let ghost c1 = c0.push(HookCall::DomContentLoaded);
        assert(c1.drop_last() =~= c0);
        *self = ResearchReflowHooks { before, after, failed, reflows, dom_content_loaded_count, load_count, calls: Ghost(c1) };
    }

    fn load(&mut self)
        ensures
            final(self)@ == (HooksView { load: sat_inc(old(self)@.load), ..old(self)@ }),
    {
        let h = self.take();
        let ghost c0 = h.calls@;
        proof {
            use_type_invariant(&h);
        }
        let ResearchReflowHooks { mut before, mut after, mut failed, mut reflows, mut dom_content_loaded_count, mut load_count, calls } = h;
        load_count = load_count.saturating_add(1);
        let ghost c1 = c0.push(HookCall::Load);
        assert(c1.drop_last() =~= c0);
        *self = ResearchReflowHooks { before, after, failed, reflows, dom_content_loaded_count, load_count, calls: Ghost(c1) };
    }
}

// ---------------------------------------------------------------------------
// Pipeline model
// ---------------------------------------------------------------------------

/// Model of the pipeline.
#[verifier::ext_equal]
pub struct PipelineView {
    pub config: ScriptPipelineConfig,
    pub metrics: ScriptPipelineMetrics,
    pub events: Seq<EventView>,
    pub failures: Seq<FailureView>,
    pub runs: Seq<RunView>,
    pub async_queue: Seq<DescriptorView>,
    pub defer_queue: Seq<DescriptorView>,
    pub phase: PipelineDocumentPhase,
    pub last_summary: Option<SummaryView>,
    /// What the loader gives for each URL.
    pub loads: spec_fn(Seq<char>) -> Result<Seq<char>, Seq<char>>,
    /// The source texts handed to the executor, in order.
    pub sources: Seq<Seq<char>>,
    /// What the executor returned for each of them, in order.
    pub returned: Seq<Result<Option<SummaryView>, Seq<char>>>,
    /// The calls made on the hooks, in order.
    pub hook_calls: Seq<HookCall>,
}

/// What the executor returned for one script.
pub struct ScriptOutcome {
    pub executed: Result<Option<SummaryView>, Seq<char>>,
}

/// A fresh pipeline.
pub open spec fn initial_view(
    config: ScriptPipelineConfig,
    loads: spec_fn(Seq<char>) -> Result<Seq<char>, Seq<char>>,
) -> PipelineView {
    PipelineView {
        config,
        metrics: zero_pipeline_metrics(),
        events: Seq::empty(),
        failures: Seq::empty(),
        runs: Seq::empty(),
        async_queue: Seq::empty(),
        defer_queue: Seq::empty(),
        phase: PipelineDocumentPhase::Loading,
        last_summary: None,
        loads,
        sources: Seq::empty(),
        returned: Seq::empty(),
        hook_calls: Seq::empty(),
    }
}

/// One more event.
pub open spec fn with_event(v: PipelineView, e: EventView) -> PipelineView {
    PipelineView { events: v.events.push(e), ..v }
}

/// The async (`true`) or defer queue.
pub open spec fn queue_of(v: PipelineView, is_async: bool) -> Seq<DescriptorView> {
    if is_async {
        v.async_queue
    } else {
        v.defer_queue
    }
}

/// Replaces the async (`true`) or defer queue.
pub open spec fn set_queue(v: PipelineView, is_async: bool, q: Seq<DescriptorView>) -> PipelineView {
    if is_async {
        PipelineView { async_queue: q, ..v }
    } else {
        PipelineView { defer_queue: q, ..v }
    }
}

/// A reflow request: counted and recorded unless no flag is dirty.
pub open spec fn reflow_effect(
    v: PipelineView,
    script_id: Option<u64>,
    reason: Seq<char>,
    dirty: Set<DirtyFlag>,
) -> PipelineView {
    if dirty == Set::<DirtyFlag>::empty() {
        v
    } else {
        PipelineView {
            metrics: ScriptPipelineMetrics {
                reflow_requests: sat_inc(v.metrics.reflow_requests),
                ..v.metrics
            },
            events: v.events.push(
                EventView::Reflow(
                    ReflowView { script_id, label: reflow_label(script_id), dirty, reason },
                ),
            ),
            hook_calls: v.hook_calls.push(
                HookCall::RequestReflow(ReflowView { script_id, label: reflow_label(script_id), dirty, reason }),
            ),
            ..v
        }
    }
}

/// Counters after a script of the given mode finished.
pub open spec fn executed_metrics(m: ScriptPipelineMetrics, mode: ScriptLoadMode) -> ScriptPipelineMetrics {
    let m1 = ScriptPipelineMetrics { scripts_executed: sat_inc(m.scripts_executed), ..m };
    match mode {
        ScriptLoadMode::ParserBlocking => ScriptPipelineMetrics {
            parser_blocking_scripts: sat_inc(m1.parser_blocking_scripts),
            ..m1
        },
        ScriptLoadMode::Async => ScriptPipelineMetrics {
            async_scripts_executed: sat_inc(m1.async_scripts_executed),
            ..m1
        },
        ScriptLoadMode::Defer => ScriptPipelineMetrics {
            defer_scripts_executed: sat_inc(m1.defer_scripts_executed),
            ..m1
        },
        ScriptLoadMode::Dynamic => ScriptPipelineMetrics {
            dynamic_scripts_executed: sat_inc(m1.dynamic_scripts_executed),
            ..m1
        },
    }
}

/// The last summary after a script drained the loop: the newest summary,
/// with the console lines of all earlier drains in front.
pub open spec fn merged_summary(prev: Option<SummaryView>, latest: Option<SummaryView>) -> Option<SummaryView> {
    match latest {
        None => prev,
        Some(l) => match prev {
            None => Some(l),
            Some(p) => Some(SummaryView { console: p.console + l.console, ..l }),
        },
    }
}

/// Obtaining a script's source: inline text, or a fetch through the loader.
pub open spec fn load_effect(v: PipelineView, d: DescriptorView) -> (PipelineView, Result<Seq<char>, Seq<char>>) {
    match d.source {
        SourceView::Inline(s) => (v, Ok(s)),
        SourceView::External(url) => {
            let loaded = (v.loads)(url);
            let v1 = PipelineView {
                metrics: ScriptPipelineMetrics {
                    external_fetches: sat_inc(v.metrics.external_fetches),
                    ..v.metrics
                },
                ..v
            };
            match loaded {
                Ok(s) => (
                    with_event(v1, EventView::Fetched { id: d.id, label: d.label, bytes: byte_len(s) }),
                    Ok(s),
                ),
                Err(e) => (v1, Err(e)),
            }
        },
    }
}

/// What a successful run records: the finish event, counters, the merged
/// summary, a conservative reflow request and the run record.
pub open spec fn finish_effect(
    v: PipelineView,
    d: DescriptorView,
    source: Seq<char>,
    summary: Option<SummaryView>,
) -> PipelineView {
    let v1 = PipelineView {
        events: v.events.push(EventView::Finished { id: d.id, label: d.label }),
        hook_calls: v.hook_calls.push(HookCall::AfterScript(d)),
        metrics: executed_metrics(v.metrics, d.mode),
        last_summary: merged_summary(v.last_summary, summary),
        ..v
    };
    let v2 = if v.config.conservative_reflow_after_script {
        reflow_effect(v1, Some(d.id), "script-complete:"@ + d.label, script_flags())
    } else {
        v1
    };
    PipelineView {
        runs: v2.runs.push(RunView { descriptor: d, source_bytes: byte_len(source), summary }),
        ..v2
    }
}

/// Running one script, with the error that stopped it, if any.
pub open spec fn run_effect(v: PipelineView, d: DescriptorView, o: ScriptOutcome) -> (
    PipelineView,
    Result<(), Seq<char>>,
) {
    let (v1, src) = load_effect(v, d);
    match src {
        Err(e) => (v1, Err(e)),
        Ok(s) => {
            let v2 = PipelineView {
                sources: v1.sources.push(s),
                returned: v1.returned.push(o.executed),
                hook_calls: v1.hook_calls.push(HookCall::BeforeScript(d)),
                ..with_event(v1, EventView::Started { id: d.id, label: d.label, mode: d.mode })
            };
            let v3 = if v.config.manage_current_script {
                PipelineView {
                    metrics: ScriptPipelineMetrics {
                        current_script_sets: sat_inc(v2.metrics.current_script_sets),
                        current_script_clears: sat_inc(v2.metrics.current_script_clears),
                        ..v2.metrics
                    },
                    ..v2
                }
            } else {
                v2
            };
            match o.executed {
                Err(e) => (v3, Err(e)),
                Ok(summary) => (finish_effect(v3, d, s, summary), Ok(())),
            }
        },
    }
}

/// A recorded failure.
pub open spec fn failure_effect(v: PipelineView, d: DescriptorView, e: Seq<char>) -> PipelineView {
    let f = FailureView { script_id: d.id, label: d.label, error: e };
    PipelineView {
        metrics: ScriptPipelineMetrics { script_failures: sat_inc(v.metrics.script_failures), ..v.metrics },
        failures: v.failures.push(f),
        events: v.events.push(EventView::Failed(f)),
        hook_calls: v.hook_calls.push(HookCall::ScriptFailed(d, e)),
        ..v
    }
}

/// Running one script and recording its failure; the error is passed on
/// only when the configuration stops on errors.
pub open spec fn attempt_effect(v: PipelineView, d: DescriptorView, o: ScriptOutcome) -> (
    PipelineView,
    Result<(), Seq<char>>,
) {
    let (v1, r) = run_effect(v, d, o);
    match r {
        Ok(()) => (v1, Ok(())),
        Err(e) => (
            failure_effect(v1, d, e),
            if v.config.continue_on_error {
                Ok(())
            } else {
                Err(e)
            },
        ),
    }
}

/// Running the queued scripts `q` front to back until one passes an error on.
pub open spec fn flush_effect(
    v: PipelineView,
    q: Seq<DescriptorView>,
    is_async: bool,
    os: Seq<ScriptOutcome>,
) -> (PipelineView, Result<(), Seq<char>>)
    decreases q.len(),
{
    if q.len() == 0 {
        (set_queue(v, is_async, q), Ok(()))
    } else {
        let v0 = set_queue(v, is_async, q.drop_first());
        let (v1, r) = attempt_effect(v0, q[0], os[0]);
        match r {
            Err(e) => (v1, Err(e)),
            Ok(()) => flush_effect(v1, q.drop_first(), is_async, os.drop_first()),
        }
    }
}

/// Discovering a script: counted and recorded, then run at once
/// (parser-blocking, dynamic), queued and perhaps flushed (async), or queued
/// until parsing finishes (defer).
pub open spec fn discover_effect(v: PipelineView, d: DescriptorView, os: Seq<ScriptOutcome>) -> (
    PipelineView,
    Result<(), Seq<char>>,
) {
    let v1 = discovered_view(v, d);
    match d.mode {
        ScriptLoadMode::Async => {
            let v2 = async_queued_view(v1, d);
            if v.config.async_policy == AsyncSchedulingPolicy::AsSoonAsDiscovered {
                flush_effect(v2, v2.async_queue, true, os)
            } else {
                (v2, Ok(()))
            }
        },
        ScriptLoadMode::Defer => (defer_queued_view(v1, d), Ok(())),
        _ => attempt_effect(v1, d, os[0]),
    }
}

/// A discovered script, counted by its source and recorded.
pub open spec fn discovered_view(v: PipelineView, d: DescriptorView) -> PipelineView {
    let m1 = ScriptPipelineMetrics { scripts_discovered: sat_inc(v.metrics.scripts_discovered), ..v.metrics };
    let m2 = match d.source {
        SourceView::Inline(_) => ScriptPipelineMetrics { inline_scripts: sat_inc(m1.inline_scripts), ..m1 },
        SourceView::External(_) => ScriptPipelineMetrics {
            external_scripts: sat_inc(m1.external_scripts),
            ..m1
        },
    };
    PipelineView {
        metrics: m2,
        events: v.events.push(EventView::Discovered { id: d.id, label: d.label }),
        ..v
    }
}

/// An async script, counted, recorded and queued.
pub open spec fn async_queued_view(v: PipelineView, d: DescriptorView) -> PipelineView {
    PipelineView {
        metrics: ScriptPipelineMetrics {
            async_scripts_queued: sat_inc(v.metrics.async_scripts_queued),
            ..v.metrics
        },
        events: v.events.push(EventView::Queued { id: d.id, label: d.label, mode: ScriptLoadMode::Async }),
        async_queue: v.async_queue.push(d),
        ..v
    }
}

/// A defer script, counted, recorded and queued.
pub open spec fn defer_queued_view(v: PipelineView, d: DescriptorView) -> PipelineView {
    PipelineView {
        metrics: ScriptPipelineMetrics {
            defer_scripts_queued: sat_inc(v.metrics.defer_scripts_queued),
            ..v.metrics
        },
        events: v.events.push(EventView::Queued { id: d.id, label: d.label, mode: ScriptLoadMode::Defer }),
        defer_queue: v.defer_queue.push(d),
        ..v
    }
}

/// Finishing parsing: interactive, async (by policy) and defer scripts,
/// DOMContentLoaded, then late async scripts (by policy).
pub open spec fn finish_parsing_effect(
    v: PipelineView,
    a: Seq<ScriptOutcome>,
    b: Seq<ScriptOutcome>,
    c: Seq<ScriptOutcome>,
) -> (PipelineView, Result<(), Seq<char>>) {
    let v1 = phase_view(v, PipelineDocumentPhase::Interactive);
    let (v2, r2) = if v.config.async_policy == AsyncSchedulingPolicy::AfterParsingBeforeDefer {
        flush_effect(v1, v1.async_queue, true, a)
    } else {
        (v1, Ok(()))
    };
    if r2 is Err {
        (v2, r2)
    } else {
        let (v3, r3) = flush_effect(v2, v2.defer_queue, false, b);
        if r3 is Err {
            (v3, r3)
        } else {
            let v5 = dom_content_loaded_view(v3);
            if v.config.async_policy == AsyncSchedulingPolicy::AfterDomContentLoaded {
                flush_effect(v5, v5.async_queue, true, c)
            } else {
                (v5, Ok(()))
            }
        }
    }
}

/// A phase change, recorded.
pub open spec fn phase_view(v: PipelineView, p: PipelineDocumentPhase) -> PipelineView {
    PipelineView { phase: p, events: v.events.push(EventView::Phase(p)), ..v }
}

/// DOMContentLoaded: the phase, and when configured the event with its
/// lifecycle reflow request.
pub open spec fn dom_content_loaded_view(v: PipelineView) -> PipelineView {
    let v4 = phase_view(v, PipelineDocumentPhase::DomContentLoaded);
    if v.config.fire_dom_content_loaded {
        reflow_effect(
            PipelineView {
                metrics: ScriptPipelineMetrics {
                    dom_content_loaded_events: sat_inc(v4.metrics.dom_content_loaded_events),
                    ..v4.metrics
                },
                hook_calls: v4.hook_calls.push(HookCall::DomContentLoaded),
                ..v4
            },
            None,
            "DOMContentLoaded"@,
            lifecycle_flags(),
        )
    } else {
        v4
    }
}

/// Finishing the document: complete, and load fires.
pub open spec fn finish_document_effect(v: PipelineView) -> PipelineView {
    let v1 = phase_view(v, PipelineDocumentPhase::Complete);
    if v.config.fire_load {
        reflow_effect(
            PipelineView {
                metrics: ScriptPipelineMetrics { load_events: sat_inc(v1.metrics.load_events), ..v1.metrics },
                hook_calls: v1.hook_calls.push(HookCall::Load),
                ..v1
            },
            None,
            "load"@,
            lifecycle_flags(),
        )
    } else {
        v1
    }
}

/// Discovering scripts in order until one passes an error on.
pub open spec fn discover_all(v: PipelineView, ds: Seq<DescriptorView>, os: Seq<Seq<ScriptOutcome>>) -> (
    PipelineView,
    Result<(), Seq<char>>,
)
    decreases ds.len(),
{
    if ds.len() == 0 {
        (v, Ok(()))
    } else {
        let (v1, r) = discover_effect(v, ds[0], os[0]);
        if r is Err {
            (v1, r)
        } else {
            discover_all(v1, ds.drop_first(), os.drop_first())
        }
    }
}

/// A whole document: discover every script, finish parsing, finish the
/// document; the pipeline where it stopped, with the error that stopped it,
/// if any.
pub open spec fn document_run(
    config: ScriptPipelineConfig,
    loads: spec_fn(Seq<char>) -> Result<Seq<char>, Seq<char>>,
    ds: Seq<DescriptorView>,
    os: Seq<Seq<ScriptOutcome>>,
    a: Seq<ScriptOutcome>,
    b: Seq<ScriptOutcome>,
    c: Seq<ScriptOutcome>,
) -> (PipelineView, Result<(), Seq<char>>) {
    let (v1, r1) = discover_all(initial_view(config, loads), ds, os);
    match r1 {
        Err(e) => (v1, Err(e)),
        Ok(()) => {
            let (v2, r2) = finish_parsing_effect(v1, a, b, c);
            match r2 {
                Err(e) => (v2, Err(e)),
                Ok(()) => (finish_document_effect(v2), Ok(())),
            }
        },
    }
}

/// A whole document: the pipeline at the end, or the error that stopped it.
pub open spec fn document_effect(
    config: ScriptPipelineConfig,
    loads: spec_fn(Seq<char>) -> Result<Seq<char>, Seq<char>>,
    ds: Seq<DescriptorView>,
    os: Seq<Seq<ScriptOutcome>>,
    a: Seq<ScriptOutcome>,
    b: Seq<ScriptOutcome>,
    c: Seq<ScriptOutcome>,
) -> Result<PipelineView, Seq<char>> {
    let (v, r) = document_run(config, loads, ds, os, a, b, c);
    match r {
        Err(e) => Err(e),
        Ok(()) => Ok(v),
    }
}

// ---------------------------------------------------------------------------
// The pipeline
// ---------------------------------------------------------------------------

/// View of a result without a value.
pub open spec fn unit_view(r: Result<(), String>) -> Result<(), Seq<char>> {
    match r {
        Ok(()) => Ok(()),
        Err(e) => Err(e@),
    }
}

/// View of a result carrying text.
pub open spec fn text_view(r: Result<String, String>) -> Result<Seq<char>, Seq<char>> {
    match r {
        Ok(s) => Ok(s@),
        Err(e) => Err(e@),
    }
}

/// View of what the executor returned.
pub open spec fn executed_view(r: Result<Option<EventLoopRunSummary>, String>) -> Result<
    Option<SummaryView>,
    Seq<char>,
> {
    match r {
        Ok(s) => Ok(summary_opt_view(s)),
        Err(e) => Err(e@),
    }
}

/// What a loader gives for each URL.
pub open spec fn loads_of<L: ScriptResourceLoader>(loader: L) -> spec_fn(Seq<char>) -> Result<Seq<char>, Seq<char>> {
    |u: Seq<char>| loader.load_result(u)
}

/// Script pipeline.
pub struct ScriptPipeline<L> {
    config: ScriptPipelineConfig,
    loader: L,
    metrics: ScriptPipelineMetrics,
    events: Vec<PipelineEvent>,
    failures: Vec<ScriptExecutionFailure>,
    script_runs: Vec<PipelineScriptRun>,
    async_queue: Vec<ScriptDescriptor>,
    defer_queue: Vec<ScriptDescriptor>,
    phase: PipelineDocumentPhase,
    last_summary: Option<EventLoopRunSummary>,
    sources: Ghost<Seq<Seq<char>>>,
    returned: Ghost<Seq<Result<Option<SummaryView>, Seq<char>>>>,
    hook_calls: Ghost<Seq<HookCall>>,
}

impl<L: ScriptResourceLoader> View for ScriptPipeline<L> {
    type V = PipelineView;

    closed spec fn view(&self) -> PipelineView {
        PipelineView {
            config: self.config,
            metrics: self.metrics,
            events: event_views(self.events@),
            failures: failure_views(self.failures@),
            runs: run_views(self.script_runs@),
            async_queue: descriptor_views(self.async_queue@),
            defer_queue: descriptor_views(self.defer_queue@),
            phase: self.phase,
            last_summary: summary_opt_view(self.last_summary),
            loads: loads_of(self.loader),
            sources: self.sources@,
            returned: self.returned@,
            hook_calls: self.hook_calls@,
        }
    }
}

fn append_strings(dst: &mut Vec<String>, src: &Vec<String>)
    ensures
        final(dst)@ == old(dst)@ + src@,
{
    let mut i: usize = 0;
    while i < src.len()
        invariant
            i <= src@.len(),
            dst@ == old(dst)@ + src@.take(i as int),
        decreases src.len() - i,
    {
        dst.push(src[i].clone());
        i = i + 1;
        assert(dst@ =~= old(dst)@ + src@.take(i as int));
    }
    assert(src@.take(i as int) =~= src@);
}

impl<L: ScriptResourceLoader> ScriptPipeline<L> {
    /// Creates a pipeline in the loading phase, with nothing recorded.
    pub fn new(config: ScriptPipelineConfig, loader: L) -> (p: Self)
        ensures
            p@ == initial_view(config, loads_of(loader)),
    {
        let p = Self {
            config,
            loader,
            metrics: ScriptPipelineMetrics::default(),
            events: Vec::new(),
            failures: Vec::new(),
            script_runs: Vec::new(),
            async_queue: Vec::new(),
            defer_queue: Vec::new(),
            phase: PipelineDocumentPhase::Loading,
            last_summary: None,
            sources: Ghost(Seq::empty()),
            returned: Ghost(Seq::empty()),
            hook_calls: Ghost(Seq::empty()),
        };
        assert(p@ =~= initial_view(config, loads_of(p.loader)));
        p
    }

    /// Current phase.
    pub fn phase(&self) -> (r: PipelineDocumentPhase)
        ensures
            r == self@.phase,
    {
        self.phase
    }

    /// Metrics snapshot.
    pub fn metrics(&self) -> (r: ScriptPipelineMetrics)
        ensures
            r == self@.metrics,
    {
        self.metrics
    }

    /// Events snapshot.
    pub fn events(&self) -> (r: Vec<PipelineEvent>)
        ensures
            event_views(r@) == self@.events,
    {
        let mut r: Vec<PipelineEvent> = Vec::new();
        let mut i: usize = 0;
        while i < self.events.len()
            invariant
                i <= self.events@.len(),
                r@.len() == i,
                forall|k: int| 0 <= k < i ==> (#[trigger] r@[k])@ == self.events@[k]@,
            decreases self.events.len() - i,
        {
            r.push(self.events[i].copy());
            i = i + 1;
        }
        assert(event_views(r@) =~= event_views(self.events@));
        r
    }

    fn push_event(&mut self, e: PipelineEvent)
        ensures
            final(self)@ == with_event(old(self)@, e@),
    {
        let ghost ev = e@;
        self.events.push(e);
        assert(event_views(self.events@) =~= event_views(old(self).events@).push(ev));
        assert(self@ =~= with_event(old(self)@, ev));
    }

    fn request_reflow<H: ScriptPipelineHooks>(
        &mut self,
        hooks: &mut H,
        script_id: Option<u64>,
        reason: String,
        dirty: DirtyFlags,
    )
        ensures
            final(self)@ == reflow_effect(old(self)@, script_id, reason@, dirty@),
            forall|base: Seq<HookCall>|
                #[trigger] (base + old(self)@.hook_calls) == old(hooks).calls() ==> final(hooks).calls() == base
                    + final(self)@.hook_calls,
    {
        if dirty.is_empty() {
            return ;
        }
        let label = match script_id {
            Some(id) => {
                let digits = decimal_string(id);
                concat("script:", digits.as_str())
            },
            None => owned("lifecycle"),
        };
        let request = ReflowRequest { script_id, label, dirty, reason };
        self.metrics.reflow_requests = self.metrics.reflow_requests.saturating_add(1);
        hooks.request_reflow(&request);
        proof {
            self.hook_calls@ = self.hook_calls@.push(HookCall::RequestReflow(request@));
        }
        self.push_event(PipelineEvent::ReflowRequested(request));
        assert(self@ =~= reflow_effect(old(self)@, script_id, reason@, dirty@));
    }

    fn load_source(&mut self, d: &ScriptDescriptor) -> (r: Result<String, String>)
        ensures
            (final(self)@, text_view(r)) == load_effect(old(self)@, d@),
    {
        match &d.source {
            ScriptSource::Inline { source } => Ok(source.clone()),
            ScriptSource::External { url } => {
                self.metrics.external_fetches = self.metrics.external_fetches.saturating_add(1);
                let loaded = self.loader.load_script(url.as_str());
                match loaded {
                    Ok(source) => {
                        let n = utf8_len(source.as_str());
                        self.push_event(
                            PipelineEvent::ScriptFetched {
                                script_id: d.id,
                                label: d.label.clone(),
                                bytes: n,
                            },
                        );
                        Ok(source)
                    },
                    Err(e) => Err(e),
                }
            },
        }
    }

    fn bump_execution_counter(&mut self, mode: ScriptLoadMode)
        ensures
            final(self)@ == (PipelineView { metrics: executed_metrics(old(self)@.metrics, mode), ..old(self)@ }),
    {
        self.metrics.scripts_executed = self.metrics.scripts_executed.saturating_add(1);
        match mode {
            ScriptLoadMode::ParserBlocking => {
                self.metrics.parser_blocking_scripts = self.metrics.parser_blocking_scripts.saturating_add(1);
            },
            ScriptLoadMode::Async => {
                self.metrics.async_scripts_executed = self.metrics.async_scripts_executed.saturating_add(1);
            },
            ScriptLoadMode::Defer => {
                self.metrics.defer_scripts_executed = self.metrics.defer_scripts_executed.saturating_add(1);
            },
            ScriptLoadMode::Dynamic => {
                self.metrics.dynamic_scripts_executed = self.metrics.dynamic_scripts_executed.saturating_add(1);
            },
        }
        assert(self@ =~= (PipelineView { metrics: executed_metrics(old(self)@.metrics, mode), ..old(self)@ }));
    }

    fn merge_summary(&mut self, summary: &Option<EventLoopRunSummary>)
        ensures
            final(self)@ == (PipelineView {
                last_summary: merged_summary(old(self)@.last_summary, summary_opt_view(*summary)),
                ..old(self)@
            }),
    {
        match summary {
            Some(latest) => {
                let mut merged = copy_summary(latest);
                match &self.last_summary {
                    Some(prev) => {
                        let mut console = clone_strings(&prev.console);
                        append_strings(&mut console, &latest.console);
                        proof {
                            assert(string_views(console@) =~= string_views(prev.console@)
                                + string_views(latest.console@));
                        }
                        merged.console = console;
                    },
                    None => {},
                }
                self.last_summary = Some(merged);
            },
            None => {},
        }
        assert(self@ =~= (PipelineView {
            last_summary: merged_summary(old(self)@.last_summary, summary_opt_view(*summary)),
            ..old(self)@
        }));
    }

    fn push_run(&mut self, run: PipelineScriptRun)
        ensures
            final(self)@ == (PipelineView { runs: old(self)@.runs.push(run@), ..old(self)@ }),
    {
        let ghost rv = run@;
        self.script_runs.push(run);
        assert(run_views(self.script_runs@) =~= run_views(old(self).script_runs@).push(rv));
        assert(self@ =~= (PipelineView { runs: old(self)@.runs.push(rv), ..old(self)@ }));
    }

    fn execute_script<E: ScriptExecutor, H: ScriptPipelineHooks>(
        &mut self,
        executor: &mut E,
        hooks: &mut H,
        d: &ScriptDescriptor,
    ) -> (r: (Result<(), String>, Ghost<ScriptOutcome>))
        ensures
            forall|base: Seq<Seq<char>>|
                #[trigger] (base + old(self)@.sources) == old(executor).executed() ==> final(executor).executed() == base
                    + final(self)@.sources,
            forall|base: Seq<Result<Option<SummaryView>, Seq<char>>>|
                #[trigger] (base + old(self)@.returned) == old(executor).returned() ==> final(executor).returned()
                    == base + final(self)@.returned,
            forall|base: Seq<HookCall>|
                #[trigger] (base + old(self)@.hook_calls) == old(hooks).calls() ==> final(hooks).calls() == base
                    + final(self)@.hook_calls,
            (final(self)@, unit_view(r.0)) == run_effect(old(self)@, d@, r.1@),
    {
        let loaded = self.load_source(d);
        let ghost lv = text_view(loaded);
        let ghost v1 = self@;
        let source = match loaded {
            Ok(s) => s,
            Err(e) => {
                return (Err(e), Ghost(ScriptOutcome { executed: Err(Seq::empty()) }));
            },
        };
        self.push_event(
            PipelineEvent::ScriptStarted { script_id: d.id, label: d.label.clone(), mode: d.mode },
        );
        proof {
            self.sources@ = self.sources@.push(source@);
        }
        hooks.before_script(d);
        proof {
            self.hook_calls@ = self.hook_calls@.push(HookCall::BeforeScript(d@));
        }
        if self.config.manage_current_script {
            let current = current_script(d);
            executor.set_current_script(Some(&current));
            self.metrics.current_script_sets = self.metrics.current_script_sets.saturating_add(1);
        }
        let result = executor.execute(d.kind, source.as_str(), self.config.drain_after_each_script);
        proof {
            self.returned@ = self.returned@.push(executed_view(result));
        }
        if self.config.manage_current_script {
            executor.set_current_script(None);
            self.metrics.current_script_clears = self.metrics.current_script_clears.saturating_add(1);
        }
        let ghost ev = executed_view(result);
        let ghost o = ScriptOutcome { executed: ev };
        let ghost v3 = self@;
        proof {
            let v2 = PipelineView {
                sources: v1.sources.push(source@),
                returned: v1.returned.push(ev),
                hook_calls: v1.hook_calls.push(HookCall::BeforeScript(d@)),
                ..with_event(v1, EventView::Started { id: d.id, label: d.label@, mode: d.mode })
            };
            if self.config.manage_current_script {
                assert(v3 =~= (PipelineView {
                    metrics: ScriptPipelineMetrics {
                        current_script_sets: sat_inc(v2.metrics.current_script_sets),
                        current_script_clears: sat_inc(v2.metrics.current_script_clears),
                        ..v2.metrics
                    },
                    ..v2
                }));
            } else {
                assert(v3 =~= v2);
            }
        }
        let summary = match result {
            Ok(s) => s,
            Err(e) => {
                return (Err(e), Ghost(o));
            },
        };
        hooks.after_script(d);
        proof {
            self.hook_calls@ = self.hook_calls@.push(HookCall::AfterScript(d@));
        }
        self.push_event(PipelineEvent::ScriptFinished { script_id: d.id, label: d.label.clone() });
        self.bump_execution_counter(d.mode);
        self.merge_summary(&summary);
        let ghost v_mid = self@;
        if self.config.conservative_reflow_after_script {
            let reason = concat("script-complete:", d.label.as_str());
            self.request_reflow(hooks, Some(d.id), reason, DirtyFlags::conservative_script());
        }
        let n = utf8_len(source.as_str());
        let copy = d.copy();
        self.push_run(PipelineScriptRun { descriptor: copy, source_bytes: n, summary });
        proof {
            let w1 = PipelineView {
                events: v3.events.push(EventView::Finished { id: d.id, label: d.label@ }),
                hook_calls: v3.hook_calls.push(HookCall::AfterScript(d@)),
                metrics: executed_metrics(v3.metrics, d.mode),
                last_summary: merged_summary(v3.last_summary, summary_opt_view(summary)),
                ..v3
            };
            assert(v_mid =~= w1);
        }
        (Ok(()), Ghost(o))
    }

    fn attempt<E: ScriptExecutor, H: ScriptPipelineHooks>(
        &mut self,
        executor: &mut E,
        hooks: &mut H,
        d: ScriptDescriptor,
    ) -> (r: (Result<(), String>, Ghost<ScriptOutcome>))
        ensures
            forall|base: Seq<Seq<char>>|
                #[trigger] (base + old(self)@.sources) == old(executor).executed() ==> final(executor).executed() == base
                    + final(self)@.sources,
            forall|base: Seq<Result<Option<SummaryView>, Seq<char>>>|
                #[trigger] (base + old(self)@.returned) == old(executor).returned() ==> final(executor).returned()
                    == base + final(self)@.returned,
            forall|base: Seq<HookCall>|
                #[trigger] (base + old(self)@.hook_calls) == old(hooks).calls() ==> final(hooks).calls() == base
                    + final(self)@.hook_calls,
            (final(self)@, unit_view(r.0)) == attempt_effect(old(self)@, d@, r.1@),
    {
        let (result, o) = self.execute_script(executor, hooks, &d);
        match result {
            Ok(()) => (Ok(()), o),
            Err(error) => {
                let ghost v1 = self@;
                self.metrics.script_failures = self.metrics.script_failures.saturating_add(1);
                hooks.script_failed(&d, error.as_str());
                proof {
                    self.hook_calls@ = self.hook_calls@.push(HookCall::ScriptFailed(d@, error@));
                }
                let failure = ScriptExecutionFailure {
                    script_id: d.id,
                    label: d.label.clone(),
                    error: error.clone(),
                };
                let ghost fv = failure@;
                let ghost f0 = self.failures@;
                self.failures.push(failure.copy());
                assert(failure_views(self.failures@) =~= failure_views(f0).push(fv));
                self.push_event(PipelineEvent::ScriptFailed(failure));
                assert(self@ =~= failure_effect(v1, d@, error@));
                if self.config.continue_on_error {
                    (Ok(()), o)
                } else {
                    (Err(error), o)
                }
            },
        }
    }

    fn flush<E: ScriptExecutor, H: ScriptPipelineHooks>(
        &mut self,
        executor: &mut E,
        hooks: &mut H,
        is_async: bool,
    ) -> (r: (Result<(), String>, Ghost<Seq<ScriptOutcome>>))
        ensures
            forall|base: Seq<Seq<char>>|
                #[trigger] (base + old(self)@.sources) == old(executor).executed() ==> final(executor).executed() == base
                    + final(self)@.sources,
            forall|base: Seq<Result<Option<SummaryView>, Seq<char>>>|
                #[trigger] (base + old(self)@.returned) == old(executor).returned() ==> final(executor).returned()
                    == base + final(self)@.returned,
            forall|base: Seq<HookCall>|
                #[trigger] (base + old(self)@.hook_calls) == old(hooks).calls() ==> final(hooks).calls() == base
                    + final(self)@.hook_calls,
            (final(self)@, unit_view(r.0)) == flush_effect(
                old(self)@,
                queue_of(old(self)@, is_async),
                is_async,
                r.1@,
            ),
        decreases queue_of(old(self)@, is_async).len(),
    {
        let ghost v0 = self@;
        let ghost q = queue_of(v0, is_async);
        let empty = if is_async {
            self.async_queue.len() == 0
        } else {
            self.defer_queue.len() == 0
        };
        if empty {
            assert(set_queue(v0, is_async, q) =~= v0);
            return (Ok(()), Ghost(Seq::empty()));
        }
        let d = if is_async {
            let ghost old_q = self.async_queue@;
            let d = self.async_queue.remove(0);
            assert(descriptor_views(self.async_queue@) =~= descriptor_views(old_q).drop_first());
            d
        } else {
            let ghost old_q = self.defer_queue@;
            let d = self.defer_queue.remove(0);
            assert(descriptor_views(self.defer_queue@) =~= descriptor_views(old_q).drop_first());
            d
        };
        assert(self@ =~= set_queue(v0, is_async, q.drop_first()));
        assert(d@ == q[0]);
        let ghost v_pop = self@;
        let (r, o) = self.attempt(executor, hooks, d);
        proof {
            lemma_attempt_keeps_queues(v_pop, q[0], o@);
        }
        match r {
            Err(e) => {
                let ghost os = seq![o@];
                assert(os[0] == o@);
                (Err(e), Ghost(os))
            },
            Ok(()) => {
                let ghost v1 = self@;
                assert(queue_of(v1, is_async) == q.drop_first());
                let (r2, rest) = self.flush(executor, hooks, is_async);
                let ghost os = seq![o@] + rest@;
                assert(os[0] == o@);
                assert(os.drop_first() =~= rest@);
                (r2, Ghost(os))
            },
        }
    }

    /// Discovers a script as the parser would: counts it, records it, and
    /// runs it now (parser-blocking, dynamic) or queues it (async, defer);
    /// async scripts are flushed at once under `AsSoonAsDiscovered`.
    pub fn discover_script<E: ScriptExecutor, H: ScriptPipelineHooks>(
        &mut self,
        executor: &mut E,
        hooks: &mut H,
        descriptor: ScriptDescriptor,
    ) -> (r: Result<(), String>)
        ensures
            forall|base: Seq<Seq<char>>|
                #[trigger] (base + old(self)@.sources) == old(executor).executed() ==> final(executor).executed() == base
                    + final(self)@.sources,
            forall|base: Seq<Result<Option<SummaryView>, Seq<char>>>|
                #[trigger] (base + old(self)@.returned) == old(executor).returned() ==> final(executor).returned()
                    == base + final(self)@.returned,
            forall|base: Seq<HookCall>|
                #[trigger] (base + old(self)@.hook_calls) == old(hooks).calls() ==> final(hooks).calls() == base
                    + final(self)@.hook_calls,
            exists|os: Seq<ScriptOutcome>|
                (final(self)@, unit_view(r)) == #[trigger] discover_effect(old(self)@, descriptor@, os),
    {
        let ghost v0 = self@;
        let ghost d = descriptor@;
        self.record_discovery(&descriptor);
        match descriptor.mode {
            ScriptLoadMode::Async => {
                self.queue_script(descriptor, true);
                if self.config.async_policy == AsyncSchedulingPolicy::AsSoonAsDiscovered {
                    let (r, os) = self.flush(executor, hooks, true);
                    assert((self@, unit_view(r)) == discover_effect(v0, d, os@));
                    r
                } else {
                    assert((self@, unit_view(Ok(()))) == discover_effect(v0, d, Seq::empty()));
                    Ok(())
                }
            },
            ScriptLoadMode::Defer => {
                self.queue_script(descriptor, false);
                assert((self@, unit_view(Ok(()))) == discover_effect(v0, d, Seq::empty()));
                Ok(())
            },
            _ => {
                let (r, o) = self.attempt(executor, hooks, descriptor);
                let ghost os = seq![o@];
                assert(os[0] == o@);
                assert((self@, unit_view(r)) == discover_effect(v0, d, os));
                r
            },
        }
    }

    fn record_discovery(&mut self, descriptor: &ScriptDescriptor)
        ensures
            final(self)@ == discovered_view(old(self)@, descriptor@),
    {
        self.metrics.scripts_discovered = self.metrics.scripts_discovered.saturating_add(1);
        match &descriptor.source {
            ScriptSource::Inline { .. } => {
                self.metrics.inline_scripts = self.metrics.inline_scripts.saturating_add(1);
            },
            ScriptSource::External { .. } => {
                self.metrics.external_scripts = self.metrics.external_scripts.saturating_add(1);
            },
        }
        let ghost v1 = self@;
        self.push_event(
            PipelineEvent::ScriptDiscovered { script_id: descriptor.id, label: descriptor.label.clone() },
        );
        assert(self@ =~= discovered_view(old(self)@, descriptor@));
    }

    fn queue_script(&mut self, descriptor: ScriptDescriptor, is_async: bool)
        ensures
            is_async ==> final(self)@ == async_queued_view(old(self)@, descriptor@),
            !is_async ==> final(self)@ == defer_queued_view(old(self)@, descriptor@),
    {
        let ghost d = descriptor@;
        if is_async {
            self.metrics.async_scripts_queued = self.metrics.async_scripts_queued.saturating_add(1);
        } else {
            self.metrics.defer_scripts_queued = self.metrics.defer_scripts_queued.saturating_add(1);
        }
        let mode = if is_async {
            ScriptLoadMode::Async
        } else {
            ScriptLoadMode::Defer
        };
        self.push_event(
            PipelineEvent::ScriptQueued { script_id: descriptor.id, label: descriptor.label.clone(), mode },
        );
        if is_async {
            let ghost q0 = self.async_queue@;
            self.async_queue.push(descriptor);
            assert(descriptor_views(self.async_queue@) =~= descriptor_views(q0).push(d));
            assert(self@ =~= async_queued_view(old(self)@, d));
        } else {
            let ghost q0 = self.defer_queue@;
            self.defer_queue.push(descriptor);
            assert(descriptor_views(self.defer_queue@) =~= descriptor_views(q0).push(d));
            assert(self@ =~= defer_queued_view(old(self)@, d));
        }
    }

    fn set_phase(&mut self, p: PipelineDocumentPhase)
        ensures
            final(self)@ == phase_view(old(self)@, p),
    {
        self.phase = p;
        self.push_event(PipelineEvent::DocumentPhaseChanged(p));
        assert(self@ =~= phase_view(old(self)@, p));
    }

    fn fire_dom_content_loaded<H: ScriptPipelineHooks>(&mut self, hooks: &mut H)
        ensures
            final(self)@ == dom_content_loaded_view(old(self)@),
            forall|base: Seq<HookCall>|
                #[trigger] (base + old(self)@.hook_calls) == old(hooks).calls() ==> final(hooks).calls() == base
                    + final(self)@.hook_calls,
    {
        self.set_phase(PipelineDocumentPhase::DomContentLoaded);
        if self.config.fire_dom_content_loaded {
            self.metrics.dom_content_loaded_events = self.metrics.dom_content_loaded_events.saturating_add(1);
            hooks.dom_content_loaded();
            proof {
                self.hook_calls@ = self.hook_calls@.push(HookCall::DomContentLoaded);
            }
            self.request_reflow(hooks, None, owned("DOMContentLoaded"), DirtyFlags::lifecycle());
        }
    }

    /// Finishes parsing: the document turns interactive, async scripts run
    /// (under `AfterParsingBeforeDefer`), then every defer script in order,
    /// then DOMContentLoaded fires, then async scripts run (under
    /// `AfterDomContentLoaded`). An error passed on by a script stops it.
    pub fn finish_parsing<E: ScriptExecutor, H: ScriptPipelineHooks>(
        &mut self,
        executor: &mut E,
        hooks: &mut H,
    ) -> (r: Result<(), String>)
        ensures
            forall|base: Seq<Seq<char>>|
                #[trigger] (base + old(self)@.sources) == old(executor).executed() ==> final(executor).executed() == base
                    + final(self)@.sources,
            forall|base: Seq<Result<Option<SummaryView>, Seq<char>>>|
                #[trigger] (base + old(self)@.returned) == old(executor).returned() ==> final(executor).returned()
                    == base + final(self)@.returned,
            forall|base: Seq<HookCall>|
                #[trigger] (base + old(self)@.hook_calls) == old(hooks).calls() ==> final(hooks).calls() == base
                    + final(self)@.hook_calls,
            exists|a: Seq<ScriptOutcome>, b: Seq<ScriptOutcome>, c: Seq<ScriptOutcome>|
                (final(self)@, unit_view(r)) == #[trigger] finish_parsing_effect(old(self)@, a, b, c),
    {
        let ghost v0 = self@;
        let ghost mut a: Seq<ScriptOutcome> = Seq::empty();
        let ghost mut b: Seq<ScriptOutcome> = Seq::empty();
        let ghost mut c: Seq<ScriptOutcome> = Seq::empty();
        self.set_phase(PipelineDocumentPhase::Interactive);
        let ghost v1 = self@;
        if self.config.async_policy == AsyncSchedulingPolicy::AfterParsingBeforeDefer {
            let (r, os) = self.flush(executor, hooks, true);
            proof {
                a = os@;
                lemma_flush_keeps_config(v1, v1.async_queue, true, a);
            }
            match r {
                Err(e) => {
                    assert((self@, unit_view(Err(e))) == finish_parsing_effect(v0, a, b, c));
                    return Err(e);
                },
                Ok(()) => {},
            }
        }
        let ghost v2 = self@;
        let (r, os) = self.flush(executor, hooks, false);
        proof {
            b = os@;
            lemma_flush_keeps_config(v2, v2.defer_queue, false, b);
        }
        match r {
            Err(e) => {
                assert((self@, unit_view(Err(e))) == finish_parsing_effect(v0, a, b, c));
                return Err(e);
            },
            Ok(()) => {},
        }
        self.fire_dom_content_loaded(hooks);
        let ghost v5 = self@;
        if self.config.async_policy == AsyncSchedulingPolicy::AfterDomContentLoaded {
            let (r, os) = self.flush(executor, hooks, true);
            proof {
                c = os@;
            }
            assert((self@, unit_view(r)) == finish_parsing_effect(v0, a, b, c));
            r
        } else {
            assert((self@, unit_view(Ok(()))) == finish_parsing_effect(v0, a, b, c));
            Ok(())
        }
    }

    /// Finishes the document: it completes, and load fires when configured.
    pub fn finish_document<H: ScriptPipelineHooks>(&mut self, hooks: &mut H)
        ensures
            final(self)@ == finish_document_effect(old(self)@),
            forall|base: Seq<HookCall>|
                #[trigger] (base + old(self)@.hook_calls) == old(hooks).calls() ==> final(hooks).calls() == base
                    + final(self)@.hook_calls,
    {
        self.set_phase(PipelineDocumentPhase::Complete);
        if self.config.fire_load {
            self.metrics.load_events = self.metrics.load_events.saturating_add(1);
            hooks.load();
            proof {
                self.hook_calls@ = self.hook_calls@.push(HookCall::Load);
            }
            self.request_reflow(hooks, None, owned("load"), DirtyFlags::lifecycle());
        }
    }

    /// Consumes the pipeline and returns what it recorded.
    pub fn into_run(self) -> (r: ScriptPipelineRun)
        ensures
            r@ == run_of(self@),
    {
        ScriptPipelineRun {
            metrics: self.metrics,
            events: self.events,
            failures: self.failures,
            scripts: self.script_runs,
            last_summary: self.last_summary,
            phase: self.phase,
        }
    }

    fn discover_each<E: ScriptExecutor, H: ScriptPipelineHooks>(
        &mut self,
        executor: &mut E,
        hooks: &mut H,
        scripts: &Vec<ScriptDescriptor>,
        i: usize,
    ) -> (r: (Result<(), String>, Ghost<Seq<Seq<ScriptOutcome>>>))
        requires
            i <= scripts@.len(),
        ensures
            forall|base: Seq<Seq<char>>|
                #[trigger] (base + old(self)@.sources) == old(executor).executed() ==> final(executor).executed() == base
                    + final(self)@.sources,
            forall|base: Seq<Result<Option<SummaryView>, Seq<char>>>|
                #[trigger] (base + old(self)@.returned) == old(executor).returned() ==> final(executor).returned()
                    == base + final(self)@.returned,
            forall|base: Seq<HookCall>|
                #[trigger] (base + old(self)@.hook_calls) == old(hooks).calls() ==> final(hooks).calls() == base
                    + final(self)@.hook_calls,
            (final(self)@, unit_view(r.0)) == discover_all(
                old(self)@,
                descriptor_views(scripts@).skip(i as int),
                r.1@,
            ),
        decreases scripts@.len() - i,
    {
        let ghost ds = descriptor_views(scripts@).skip(i as int);
        if i == scripts.len() {
            return (Ok(()), Ghost(Seq::empty()));
        }
        let ghost v0 = self@;
        let d = scripts[i].copy();
        assert(ds[0] == d@);
        let r = self.discover_script(executor, hooks, d);
        let ghost o = choose|o: Seq<ScriptOutcome>|
            (self@, unit_view(r)) == #[trigger] discover_effect(v0, ds[0], o);
        match r {
            Err(e) => {
                let ghost os = seq![o];
                assert(os[0] == o);
                (Err(e), Ghost(os))
            },
            Ok(()) => {
                assert(ds.drop_first() =~= descriptor_views(scripts@).skip(i + 1));
                let (r2, rest) = self.discover_each(executor, hooks, scripts, i + 1);
                let ghost os = seq![o] + rest@;
                assert(os[0] == o);
                assert(os.drop_first() =~= rest@);
                (r2, Ghost(os))
            },
        }
    }
}

/// Running a script and recording its failure leaves the queues and the
/// configuration alone.
proof fn lemma_attempt_keeps_queues(v: PipelineView, d: DescriptorView, o: ScriptOutcome)
    ensures
        attempt_effect(v, d, o).0.async_queue == v.async_queue,
        attempt_effect(v, d, o).0.defer_queue == v.defer_queue,
        attempt_effect(v, d, o).0.config == v.config,
        attempt_effect(v, d, o).0.phase == v.phase,
{
}


/// Flushing a queue leaves the configuration alone.
proof fn lemma_flush_keeps_config(v: PipelineView, q: Seq<DescriptorView>, is_async: bool, os: Seq<ScriptOutcome>)
    ensures
        flush_effect(v, q, is_async, os).0.config == v.config,
        flush_effect(v, q, is_async, os).0.phase == v.phase,
    decreases q.len(),
{
    if q.len() > 0 {
        let v0 = set_queue(v, is_async, q.drop_first());
        lemma_attempt_keeps_queues(v0, q[0], os[0]);
        let (v1, r) = attempt_effect(v0, q[0], os[0]);
        if r is Ok {
            lemma_flush_keeps_config(v1, q.drop_first(), is_async, os.drop_first());
        }
    }
}

/// Model of a finished run.
pub struct PipelineRunView {
    pub metrics: ScriptPipelineMetrics,
    pub events: Seq<EventView>,
    pub failures: Seq<FailureView>,
    pub scripts: Seq<RunView>,
    pub last_summary: Option<SummaryView>,
    pub phase: PipelineDocumentPhase,
}

impl View for ScriptPipelineRun {
    type V = PipelineRunView;

    open spec fn view(&self) -> PipelineRunView {
        PipelineRunView {
            metrics: self.metrics,
            events: event_views(self.events@),
            failures: failure_views(self.failures@),
            scripts: run_views(self.scripts@),
            last_summary: summary_opt_view(self.last_summary),
            phase: self.phase,
        }
    }
}

/// What a pipeline hands over at the end.
pub open spec fn run_of(v: PipelineView) -> PipelineRunView {
    PipelineRunView {
        metrics: v.metrics,
        events: v.events,
        failures: v.failures,
        scripts: v.runs,
        last_summary: v.last_summary,
        phase: v.phase,
    }
}

/// Runs a complete research script pipeline: discovers each script in
/// order, finishes parsing, finishes the document, and returns what was
/// recorded; an error that a script passed on stops it. The outcomes the
/// run is computed from are exactly what the executor returned, in order,
/// for the sources it was handed, also when an error stops the run; the hooks
/// receive exactly the calls the run records, in order.
pub fn run_research_script_pipeline<L: ScriptResourceLoader, E: ScriptExecutor, H: ScriptPipelineHooks>(
    executor: &mut E,
    scripts: Vec<ScriptDescriptor>,
    loader: L,
    hooks: &mut H,
    config: ScriptPipelineConfig,
) -> (r: Result<ScriptPipelineRun, String>)
    ensures
        exists|
            os: Seq<Seq<ScriptOutcome>>,
            a: Seq<ScriptOutcome>,
            b: Seq<ScriptOutcome>,
            c: Seq<ScriptOutcome>,
        |
            pipeline_outcome(
                r,
                #[trigger] document_run(config, loads_of(loader), descriptor_views(scripts@), os, a, b, c),
                old(executor).executed(),
                final(executor).executed(),
                old(executor).returned(),
                final(executor).returned(),
                old(hooks).calls(),
                final(hooks).calls(),
            ),
{
    let ghost ds = descriptor_views(scripts@);
    let ghost loads = loads_of(loader);
    let ghost log0 = executor.executed();
    let ghost ret0 = executor.returned();
    let ghost calls0 = hooks.calls();
    let mut pipeline = ScriptPipeline::new(config, loader);
    assert(calls0 + pipeline@.hook_calls =~= calls0);
    assert(log0 + pipeline@.sources =~= log0);
    assert(ret0 + pipeline@.returned =~= ret0);
    let (r1, os) = pipeline.discover_each(executor, hooks, &scripts, 0);
    assert(ds.skip(0) =~= ds);
    let ghost v1 = pipeline@;
    match r1 {
        Err(e) => {
            let ghost empty: Seq<ScriptOutcome> = Seq::empty();
            assert(document_run(config, loads, ds, os@, empty, empty, empty) == (v1, Err::<(), Seq<char>>(e@)));
            let ghost r: Result<ScriptPipelineRun, String> = Err(e);
            assert(pipeline_outcome(
                r,
                document_run(config, loads, ds, os@, empty, empty, empty),
                log0,
                executor.executed(),
                ret0,
                executor.returned(),
                calls0,
                hooks.calls(),
            ));
            return Err(e);
        },
        Ok(()) => {},
    }
    let r2 = pipeline.finish_parsing(executor, hooks);
    let ghost abc = choose|a: Seq<ScriptOutcome>, b: Seq<ScriptOutcome>, c: Seq<ScriptOutcome>|
        (pipeline@, unit_view(r2)) == #[trigger] finish_parsing_effect(v1, a, b, c);
    match r2 {
        Err(e) => {
            let ghost v2 = pipeline@;
            assert(document_run(config, loads, ds, os@, abc.0, abc.1, abc.2) == (v2, Err::<(), Seq<char>>(e@)));
            let ghost r: Result<ScriptPipelineRun, String> = Err(e);
            assert(pipeline_outcome(
                r,
                document_run(config, loads, ds, os@, abc.0, abc.1, abc.2),
                log0,
                executor.executed(),
                ret0,
                executor.returned(),
                calls0,
                hooks.calls(),
            ));
            return Err(e);
        },
        Ok(()) => {},
    }
    pipeline.finish_document(hooks);
    let ghost v3 = pipeline@;
    let run = pipeline.into_run();
    assert(document_run(config, loads, ds, os@, abc.0, abc.1, abc.2) == (v3, Ok::<(), Seq<char>>(())));
    let ghost r: Result<ScriptPipelineRun, String> = Ok(run);
    assert(pipeline_outcome(
        r,
        document_run(config, loads, ds, os@, abc.0, abc.1, abc.2),
        log0,
        executor.executed(),
        ret0,
        executor.returned(),
        calls0,
        hooks.calls(),
    ));
    Ok(run)
}

/// A pipeline result `r` agrees with the modelled run `(v, res)`: the
/// recorded run on success, the same error otherwise; the executor was
/// handed exactly the sources `v` records and returned exactly the outcomes
/// `v` records, and the hooks received exactly the calls `v` records, in
/// order.
pub open spec fn pipeline_outcome(
    r: Result<ScriptPipelineRun, String>,
    run: (PipelineView, Result<(), Seq<char>>),
    sources_before: Seq<Seq<char>>,
    sources_after: Seq<Seq<char>>,
    returned_before: Seq<Result<Option<SummaryView>, Seq<char>>>,
    returned_after: Seq<Result<Option<SummaryView>, Seq<char>>>,
    calls_before: Seq<HookCall>,
    calls_after: Seq<HookCall>,
) -> bool {
    let (v, res) = run;
    &&& sources_after == sources_before + v.sources
    &&& returned_after == returned_before + v.returned
    &&& calls_after == calls_before + v.hook_calls
    &&& match r {
        Ok(p) => res is Ok && p@ == run_of(v),
        Err(e) => res == Err::<(), Seq<char>>(e@),
    }
}


// ---------------------------------------------------------------------------
// Laws
// ---------------------------------------------------------------------------

/// Every discovered script is queued, has run, or is recorded as failed.
pub open spec fn scripts_accounted(v: PipelineView) -> bool {
    v.metrics.scripts_discovered == v.metrics.scripts_executed + v.metrics.script_failures
        + v.async_queue.len() + v.defer_queue.len()
}

proof fn lemma_attempt_counts(v: PipelineView, d: DescriptorView, o: ScriptOutcome)
    requires
        v.metrics.scripts_executed + v.metrics.script_failures < u64::MAX,
    ensures
        attempt_effect(v, d, o).0.metrics.scripts_executed + attempt_effect(v, d, o).0.metrics.script_failures
            == v.metrics.scripts_executed + v.metrics.script_failures + 1,
        attempt_effect(v, d, o).0.metrics.scripts_discovered == v.metrics.scripts_discovered,
        v.config.continue_on_error ==> attempt_effect(v, d, o).1 is Ok,
{
    lemma_attempt_keeps_queues(v, d, o);
    let (v1, r) = run_effect(v, d, o);
    assert(v1.metrics.scripts_executed + v1.metrics.script_failures == v.metrics.scripts_executed
        + v.metrics.script_failures + (if r is Ok { 1int } else { 0int }));
}

proof fn lemma_flush_counts(v: PipelineView, q: Seq<DescriptorView>, is_async: bool, os: Seq<ScriptOutcome>)
    requires
        scripts_accounted(v),
        queue_of(v, is_async) == q,
    ensures
        scripts_accounted(flush_effect(v, q, is_async, os).0),
        flush_effect(v, q, is_async, os).0.metrics.scripts_discovered == v.metrics.scripts_discovered,
        queue_of(flush_effect(v, q, is_async, os).0, !is_async) == queue_of(v, !is_async),
        flush_effect(v, q, is_async, os).0.config == v.config,
        flush_effect(v, q, is_async, os).0.phase == v.phase,
        flush_effect(v, q, is_async, os).1 is Ok ==> queue_of(flush_effect(v, q, is_async, os).0, is_async).len() == 0,
        v.config.continue_on_error ==> flush_effect(v, q, is_async, os).1 is Ok,
    decreases q.len(),
{
    lemma_flush_keeps_config(v, q, is_async, os);
    if q.len() > 0 {
        let v0 = set_queue(v, is_async, q.drop_first());
        lemma_attempt_keeps_queues(v0, q[0], os[0]);
        lemma_attempt_counts(v0, q[0], os[0]);
        let (v1, r) = attempt_effect(v0, q[0], os[0]);
        if r is Ok {
            lemma_flush_counts(v1, q.drop_first(), is_async, os.drop_first());
        }
    }
}

proof fn lemma_discover_counts(v: PipelineView, d: DescriptorView, os: Seq<ScriptOutcome>)
    requires
        scripts_accounted(v),
        v.metrics.scripts_discovered < u64::MAX,
    ensures
        scripts_accounted(discover_effect(v, d, os).0),
        discover_effect(v, d, os).0.metrics.scripts_discovered == v.metrics.scripts_discovered + 1,
        discover_effect(v, d, os).0.config == v.config,
        v.config.continue_on_error ==> discover_effect(v, d, os).1 is Ok,
        v.config.async_policy == AsyncSchedulingPolicy::AsSoonAsDiscovered && v.async_queue.len() == 0
            && discover_effect(v, d, os).1 is Ok ==> discover_effect(v, d, os).0.async_queue.len() == 0,
{
    let v1 = discovered_view(v, d);
    match d.mode {
        ScriptLoadMode::Async => {
            let v2 = async_queued_view(v1, d);
            if v.config.async_policy == AsyncSchedulingPolicy::AsSoonAsDiscovered {
                lemma_flush_counts(v2, v2.async_queue, true, os);
            }
        },
        ScriptLoadMode::Defer => {},
        _ => {
            lemma_attempt_keeps_queues(v1, d, os[0]);
            lemma_attempt_counts(v1, d, os[0]);
        },
    }
}

proof fn lemma_discover_all_counts(v: PipelineView, ds: Seq<DescriptorView>, os: Seq<Seq<ScriptOutcome>>)
    requires
        scripts_accounted(v),
        v.metrics.scripts_discovered + ds.len() <= u64::MAX,
    ensures
        scripts_accounted(discover_all(v, ds, os).0),
        discover_all(v, ds, os).0.config == v.config,
        discover_all(v, ds, os).1 is Ok ==> discover_all(v, ds, os).0.metrics.scripts_discovered
            == v.metrics.scripts_discovered + ds.len(),
        v.config.continue_on_error ==> discover_all(v, ds, os).1 is Ok,
        v.config.async_policy == AsyncSchedulingPolicy::AsSoonAsDiscovered && v.async_queue.len() == 0
            && discover_all(v, ds, os).1 is Ok ==> discover_all(v, ds, os).0.async_queue.len() == 0,
    decreases ds.len(),
{
    if ds.len() > 0 {
        lemma_discover_counts(v, ds[0], os[0]);
        let (v1, r) = discover_effect(v, ds[0], os[0]);
        if r is Ok {
            lemma_discover_all_counts(v1, ds.drop_first(), os.drop_first());
        }
    }
}

proof fn lemma_finish_parsing_counts(v: PipelineView, a: Seq<ScriptOutcome>, b: Seq<ScriptOutcome>, c: Seq<ScriptOutcome>)
    requires
        scripts_accounted(v),
    ensures
        scripts_accounted(finish_parsing_effect(v, a, b, c).0),
        finish_parsing_effect(v, a, b, c).0.metrics.scripts_discovered == v.metrics.scripts_discovered,
        finish_parsing_effect(v, a, b, c).0.config == v.config,
        v.config.continue_on_error ==> finish_parsing_effect(v, a, b, c).1 is Ok,
        finish_parsing_effect(v, a, b, c).1 is Ok ==> finish_parsing_effect(v, a, b, c).0.defer_queue.len() == 0,
        finish_parsing_effect(v, a, b, c).1 is Ok && (v.config.async_policy
            != AsyncSchedulingPolicy::AsSoonAsDiscovered || v.async_queue.len() == 0)
            ==> finish_parsing_effect(v, a, b, c).0.async_queue.len() == 0,
        finish_parsing_effect(v, a, b, c).1 is Ok ==> finish_parsing_effect(v, a, b, c).0.phase
            == PipelineDocumentPhase::DomContentLoaded,
{
    let v1 = phase_view(v, PipelineDocumentPhase::Interactive);
    if v.config.async_policy == AsyncSchedulingPolicy::AfterParsingBeforeDefer {
        lemma_flush_counts(v1, v1.async_queue, true, a);
    }
    let (v2, r2) = if v.config.async_policy == AsyncSchedulingPolicy::AfterParsingBeforeDefer {
        flush_effect(v1, v1.async_queue, true, a)
    } else {
        (v1, Ok(()))
    };
    if r2 is Ok {
        lemma_flush_counts(v2, v2.defer_queue, false, b);
        let (v3, r3) = flush_effect(v2, v2.defer_queue, false, b);
        if r3 is Ok {
            let v5 = dom_content_loaded_view(v3);
            if v.config.async_policy == AsyncSchedulingPolicy::AfterDomContentLoaded {
                lemma_flush_counts(v5, v5.async_queue, true, c);
            }
        }
    }
}

/// Scripts are never lost: once a document completes without an error,
/// every discovered script has either run or been recorded as failed, and
/// the document is complete. (Counters saturate, so the count of scripts
/// stays below `u64::MAX`.)
pub proof fn lemma_every_script_runs_or_fails(
    config: ScriptPipelineConfig,
    loads: spec_fn(Seq<char>) -> Result<Seq<char>, Seq<char>>,
    ds: Seq<DescriptorView>,
    os: Seq<Seq<ScriptOutcome>>,
    a: Seq<ScriptOutcome>,
    b: Seq<ScriptOutcome>,
    c: Seq<ScriptOutcome>,
)
    requires
        ds.len() < u64::MAX,
        document_effect(config, loads, ds, os, a, b, c) is Ok,
    ensures
        document_effect(config, loads, ds, os, a, b, c)->Ok_0.metrics.scripts_discovered == ds.len(),
        document_effect(config, loads, ds, os, a, b, c)->Ok_0.metrics.scripts_executed + document_effect(
            config,
            loads,
            ds,
            os,
            a,
            b,
            c,
        )->Ok_0.metrics.script_failures == ds.len(),
        document_effect(config, loads, ds, os, a, b, c)->Ok_0.phase == PipelineDocumentPhase::Complete,
{
    let v0 = initial_view(config, loads);
    lemma_discover_all_counts(v0, ds, os);
    let (v1, r1) = discover_all(v0, ds, os);
    lemma_finish_parsing_counts(v1, a, b, c);
}

/// With `continue_on_error`, no script stops the document: the whole run
/// succeeds whatever the loader and the executor return.
pub proof fn lemma_continue_on_error_never_stops(
    config: ScriptPipelineConfig,
    loads: spec_fn(Seq<char>) -> Result<Seq<char>, Seq<char>>,
    ds: Seq<DescriptorView>,
    os: Seq<Seq<ScriptOutcome>>,
    a: Seq<ScriptOutcome>,
    b: Seq<ScriptOutcome>,
    c: Seq<ScriptOutcome>,
)
    requires
        config.continue_on_error,
        ds.len() < u64::MAX,
    ensures
        document_effect(config, loads, ds, os, a, b, c) is Ok,
{
    let v0 = initial_view(config, loads);
    lemma_discover_all_counts(v0, ds, os);
    let (v1, r1) = discover_all(v0, ds, os);
    lemma_finish_parsing_counts(v1, a, b, c);
}

/// Defer scripts wait for the end of parsing: discovering one runs
/// nothing and queues it behind the defer scripts already waiting.
pub proof fn lemma_defer_waits_for_parsing(v: PipelineView, d: DescriptorView, os: Seq<ScriptOutcome>)
    requires
        d.mode == ScriptLoadMode::Defer,
    ensures
        discover_effect(v, d, os).1 is Ok,
        discover_effect(v, d, os).0.metrics.scripts_executed == v.metrics.scripts_executed,
        discover_effect(v, d, os).0.runs == v.runs,
        discover_effect(v, d, os).0.defer_queue == v.defer_queue.push(d),
{
}

/// A parser-blocking script runs at discovery: when it succeeds, it is
/// the last run recorded.
pub proof fn lemma_parser_blocking_runs_at_once(v: PipelineView, d: DescriptorView, os: Seq<ScriptOutcome>)
    requires
        d.mode == ScriptLoadMode::ParserBlocking,
        run_effect(discovered_view(v, d), d, os[0]).1 is Ok,
    ensures
        discover_effect(v, d, os).0.runs.len() == v.runs.len() + 1,
        discover_effect(v, d, os).0.runs.last().descriptor == d,
{
}

} // verus!
