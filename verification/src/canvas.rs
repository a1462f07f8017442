//! Canvas 2D host: canvas elements bound to DOM nodes, 2D contexts with
//! their state properties and recorded drawing commands, image-data
//! descriptors, data-URL export and usage metrics.

use crate::ast::NumberBits;
use crate::cssom::decl_view;
use crate::dom::DomNodeRef;
use crate::event_loop::sat_inc;
use crate::keyed::{has_id, id_find, id_insert, id_map, ids_sorted, keys_sorted, table_get, table_insert, table_map};
use crate::text::{append_str, decimal, decimal_string, owned};
use vstd::prelude::*;

verus! {

broadcast use vstd::string::group_string_axioms;

/// Stable canvas element id.
#[derive(Debug, Clone, Copy, PartialEq, Eq, PartialOrd, Ord, Hash, Structural)]
pub struct CanvasElementId(pub u64);

/// Stable 2D context id.
#[derive(Debug, Clone, Copy, PartialEq, Eq, PartialOrd, Ord, Hash, Structural)]
pub struct CanvasContextId(pub u64);

/// Canvas image-data descriptor.
#[derive(Debug, Clone, Copy, PartialEq, Eq, Structural)]
pub struct CanvasImageData {
    /// Width in pixels.
    pub width: u32,
    /// Height in pixels.
    pub height: u32,
    /// Backing byte length.
    pub byte_length: usize,
}

/// Canvas command record; coordinates are IEEE-754 doubles kept as bits.
#[allow(missing_docs)]
#[derive(Debug, Clone, PartialEq)]
pub enum CanvasCommand {
    /// `save()`.
    Save { context: CanvasContextId },
    /// `restore()`.
    Restore { context: CanvasContextId },
    /// `beginPath()`.
    BeginPath { context: CanvasContextId },
    /// `closePath()`.
    ClosePath { context: CanvasContextId },
    /// `moveTo(x, y)`.
    MoveTo {
        context: CanvasContextId,
        x: NumberBits,
        y: NumberBits,
    },
    /// `lineTo(x, y)`.
    LineTo {
        context: CanvasContextId,
        x: NumberBits,
        y: NumberBits,
    },
    /// `rect(x, y, w, h)`.
    Rect {
        context: CanvasContextId,
        x: NumberBits,
        y: NumberBits,
        width: NumberBits,
        height: NumberBits,
    },
    /// `arc(...)`.
    Arc {
        context: CanvasContextId,
        x: NumberBits,
        y: NumberBits,
        radius: NumberBits,
        start_angle: NumberBits,
        end_angle: NumberBits,
    },
    /// `fill()`.
    Fill {
        context: CanvasContextId,
        fill_style: String,
    },
    /// `stroke()`.
    Stroke {
        context: CanvasContextId,
        stroke_style: String,
        line_width: NumberBits,
    },
    /// `clearRect(...)`.
    ClearRect {
        context: CanvasContextId,
        x: NumberBits,
        y: NumberBits,
        width: NumberBits,
        height: NumberBits,
    },
    /// `fillRect(...)`.
    FillRect {
        context: CanvasContextId,
        x: NumberBits,
        y: NumberBits,
        width: NumberBits,
        height: NumberBits,
        fill_style: String,
    },
    /// `strokeRect(...)`.
    StrokeRect {
        context: CanvasContextId,
        x: NumberBits,
        y: NumberBits,
        width: NumberBits,
        height: NumberBits,
        stroke_style: String,
        line_width: NumberBits,
    },
    /// `fillText(...)`.
    FillText {
        context: CanvasContextId,
        text: String,
        x: NumberBits,
        y: NumberBits,
        font: String,
        fill_style: String,
    },
    /// `strokeText(...)`.
    StrokeText {
        context: CanvasContextId,
        text: String,
        x: NumberBits,
        y: NumberBits,
        font: String,
        stroke_style: String,
    },
    /// `drawImage(...)`.
    DrawImage {
        context: CanvasContextId,
        source: String,
        x: NumberBits,
        y: NumberBits,
        width: Option<NumberBits>,
        height: Option<NumberBits>,
    },
    /// `putImageData(...)`.
    PutImageData {
        context: CanvasContextId,
        width: u32,
        height: u32,
        x: NumberBits,
        y: NumberBits,
    },
    /// `getImageData(...)`.
    GetImageData {
        context: CanvasContextId,
        x: NumberBits,
        y: NumberBits,
        width: u32,
        height: u32,
    },
    /// Transform command.
    Transform {
        context: CanvasContextId,
        kind: String,
        values: Vec<NumberBits>,
    },
}

/// Model of a canvas command: text as character sequences.
#[allow(missing_docs)]
pub enum CommandView {
    Save { context: CanvasContextId },
    Restore { context: CanvasContextId },
    BeginPath { context: CanvasContextId },
    ClosePath { context: CanvasContextId },
    MoveTo {
        context: CanvasContextId,
        x: NumberBits,
        y: NumberBits,
    },
    LineTo {
        context: CanvasContextId,
        x: NumberBits,
        y: NumberBits,
    },
    Rect {
        context: CanvasContextId,
        x: NumberBits,
        y: NumberBits,
        width: NumberBits,
        height: NumberBits,
    },
    Arc {
        context: CanvasContextId,
        x: NumberBits,
        y: NumberBits,
        radius: NumberBits,
        start_angle: NumberBits,
        end_angle: NumberBits,
    },
    Fill {
        context: CanvasContextId,
        fill_style: Seq<char>,
    },
    Stroke {
        context: CanvasContextId,
        stroke_style: Seq<char>,
        line_width: NumberBits,
    },
    ClearRect {
        context: CanvasContextId,
        x: NumberBits,
        y: NumberBits,
        width: NumberBits,
        height: NumberBits,
    },
    FillRect {
        context: CanvasContextId,
        x: NumberBits,
        y: NumberBits,
        width: NumberBits,
        height: NumberBits,
        fill_style: Seq<char>,
    },
    StrokeRect {
        context: CanvasContextId,
        x: NumberBits,
        y: NumberBits,
        width: NumberBits,
        height: NumberBits,
        stroke_style: Seq<char>,
        line_width: NumberBits,
    },
    FillText {
        context: CanvasContextId,
        text: Seq<char>,
        x: NumberBits,
        y: NumberBits,
        font: Seq<char>,
        fill_style: Seq<char>,
    },
    StrokeText {
        context: CanvasContextId,
        text: Seq<char>,
        x: NumberBits,
        y: NumberBits,
        font: Seq<char>,
        stroke_style: Seq<char>,
    },
    DrawImage {
        context: CanvasContextId,
        source: Seq<char>,
        x: NumberBits,
        y: NumberBits,
        width: Option<NumberBits>,
        height: Option<NumberBits>,
    },
    PutImageData {
        context: CanvasContextId,
        width: u32,
        height: u32,
        x: NumberBits,
        y: NumberBits,
    },
    GetImageData {
        context: CanvasContextId,
        x: NumberBits,
        y: NumberBits,
        width: u32,
        height: u32,
    },
    Transform {
        context: CanvasContextId,
        kind: Seq<char>,
        values: Seq<NumberBits>,
    },
}

impl View for CanvasCommand {
    type V = CommandView;

    open spec fn view(&self) -> CommandView {
        match self {
            CanvasCommand::Save { context } => CommandView::Save { context: *context },
            CanvasCommand::Restore { context } => CommandView::Restore { context: *context },
            CanvasCommand::BeginPath { context } => CommandView::BeginPath { context: *context },
            CanvasCommand::ClosePath { context } => CommandView::ClosePath { context: *context },
            CanvasCommand::MoveTo { context, x, y } => CommandView::MoveTo { context: *context, x: *x, y: *y },
            CanvasCommand::LineTo { context, x, y } => CommandView::LineTo { context: *context, x: *x, y: *y },
            CanvasCommand::Rect { context, x, y, width, height } => CommandView::Rect { context: *context, x: *x, y: *y, width: *width, height: *height },
            CanvasCommand::Arc { context, x, y, radius, start_angle, end_angle } => CommandView::Arc { context: *context, x: *x, y: *y, radius: *radius, start_angle: *start_angle, end_angle: *end_angle },
            CanvasCommand::Fill { context, fill_style } => CommandView::Fill { context: *context, fill_style: fill_style@ },
            CanvasCommand::Stroke { context, stroke_style, line_width } => CommandView::Stroke { context: *context, stroke_style: stroke_style@, line_width: *line_width },
            CanvasCommand::ClearRect { context, x, y, width, height } => CommandView::ClearRect { context: *context, x: *x, y: *y, width: *width, height: *height },
            CanvasCommand::FillRect { context, x, y, width, height, fill_style } => CommandView::FillRect { context: *context, x: *x, y: *y, width: *width, height: *height, fill_style: fill_style@ },
            CanvasCommand::StrokeRect { context, x, y, width, height, stroke_style, line_width } => CommandView::StrokeRect { context: *context, x: *x, y: *y, width: *width, height: *height, stroke_style: stroke_style@, line_width: *line_width },
            CanvasCommand::FillText { context, text, x, y, font, fill_style } => CommandView::FillText { context: *context, text: text@, x: *x, y: *y, font: font@, fill_style: fill_style@ },
            CanvasCommand::StrokeText { context, text, x, y, font, stroke_style } => CommandView::StrokeText { context: *context, text: text@, x: *x, y: *y, font: font@, stroke_style: stroke_style@ },
            CanvasCommand::DrawImage { context, source, x, y, width, height } => CommandView::DrawImage { context: *context, source: source@, x: *x, y: *y, width: *width, height: *height },
            CanvasCommand::PutImageData { context, width, height, x, y } => CommandView::PutImageData { context: *context, width: *width, height: *height, x: *x, y: *y },
            CanvasCommand::GetImageData { context, x, y, width, height } => CommandView::GetImageData { context: *context, x: *x, y: *y, width: *width, height: *height },
            CanvasCommand::Transform { context, kind, values } => CommandView::Transform { context: *context, kind: kind@, values: values@ },
        }
    }
}

/// The context a command draws on.
pub open spec fn command_context(c: CommandView) -> CanvasContextId {
    match c {
        CommandView::Save { context, .. } => context,
        CommandView::Restore { context, .. } => context,
        CommandView::BeginPath { context, .. } => context,
        CommandView::ClosePath { context, .. } => context,
        CommandView::MoveTo { context, .. } => context,
        CommandView::LineTo { context, .. } => context,
        CommandView::Rect { context, .. } => context,
        CommandView::Arc { context, .. } => context,
        CommandView::Fill { context, .. } => context,
        CommandView::Stroke { context, .. } => context,
        CommandView::ClearRect { context, .. } => context,
        CommandView::FillRect { context, .. } => context,
        CommandView::StrokeRect { context, .. } => context,
        CommandView::FillText { context, .. } => context,
        CommandView::StrokeText { context, .. } => context,
        CommandView::DrawImage { context, .. } => context,
        CommandView::PutImageData { context, .. } => context,
        CommandView::GetImageData { context, .. } => context,
        CommandView::Transform { context, .. } => context,
    }
}

fn context_of(c: &CanvasCommand) -> (id: CanvasContextId)
    ensures
        id == command_context(c@),
{
    match c {
        CanvasCommand::Save { context, .. } => *context,
        CanvasCommand::Restore { context, .. } => *context,
        CanvasCommand::BeginPath { context, .. } => *context,
        CanvasCommand::ClosePath { context, .. } => *context,
        CanvasCommand::MoveTo { context, .. } => *context,
        CanvasCommand::LineTo { context, .. } => *context,
        CanvasCommand::Rect { context, .. } => *context,
        CanvasCommand::Arc { context, .. } => *context,
        CanvasCommand::Fill { context, .. } => *context,
        CanvasCommand::Stroke { context, .. } => *context,
        CanvasCommand::ClearRect { context, .. } => *context,
        CanvasCommand::FillRect { context, .. } => *context,
        CanvasCommand::StrokeRect { context, .. } => *context,
        CanvasCommand::FillText { context, .. } => *context,
        CanvasCommand::StrokeText { context, .. } => *context,
        CanvasCommand::DrawImage { context, .. } => *context,
        CanvasCommand::PutImageData { context, .. } => *context,
        CanvasCommand::GetImageData { context, .. } => *context,
        CanvasCommand::Transform { context, .. } => *context,
    }
}

fn copy_bits(v: &Vec<NumberBits>) -> (r: Vec<NumberBits>)
    ensures
        r@ == v@,
{
    let mut r: Vec<NumberBits> = Vec::new();
    let mut i: usize = 0;
    while i < v.len()
        invariant
            i <= v@.len(),
            r@ == v@.take(i as int),
        decreases v.len() - i,
    {
        r.push(v[i]);
        i = i + 1;
        assert(r@ =~= v@.take(i as int));
    }
    assert(v@.take(v.len() as int) =~= v@);
    r
}

fn copy_command(c: &CanvasCommand) -> (r: CanvasCommand)
    ensures
        r@ == c@,
{
    match c {
        CanvasCommand::Save { context } => CanvasCommand::Save { context: *context },
        CanvasCommand::Restore { context } => CanvasCommand::Restore { context: *context },
        CanvasCommand::BeginPath { context } => CanvasCommand::BeginPath { context: *context },
        CanvasCommand::ClosePath { context } => CanvasCommand::ClosePath { context: *context },
        CanvasCommand::MoveTo { context, x, y } => CanvasCommand::MoveTo { context: *context, x: *x, y: *y },
        CanvasCommand::LineTo { context, x, y } => CanvasCommand::LineTo { context: *context, x: *x, y: *y },
        CanvasCommand::Rect { context, x, y, width, height } => CanvasCommand::Rect { context: *context, x: *x, y: *y, width: *width, height: *height },
        CanvasCommand::Arc { context, x, y, radius, start_angle, end_angle } => CanvasCommand::Arc { context: *context, x: *x, y: *y, radius: *radius, start_angle: *start_angle, end_angle: *end_angle },
        CanvasCommand::Fill { context, fill_style } => CanvasCommand::Fill { context: *context, fill_style: fill_style.clone() },
        CanvasCommand::Stroke { context, stroke_style, line_width } => CanvasCommand::Stroke { context: *context, stroke_style: stroke_style.clone(), line_width: *line_width },
        CanvasCommand::ClearRect { context, x, y, width, height } => CanvasCommand::ClearRect { context: *context, x: *x, y: *y, width: *width, height: *height },
        CanvasCommand::FillRect { context, x, y, width, height, fill_style } => CanvasCommand::FillRect { context: *context, x: *x, y: *y, width: *width, height: *height, fill_style: fill_style.clone() },
        CanvasCommand::StrokeRect { context, x, y, width, height, stroke_style, line_width } => CanvasCommand::StrokeRect { context: *context, x: *x, y: *y, width: *width, height: *height, stroke_style: stroke_style.clone(), line_width: *line_width },
        CanvasCommand::FillText { context, text, x, y, font, fill_style } => CanvasCommand::FillText { context: *context, text: text.clone(), x: *x, y: *y, font: font.clone(), fill_style: fill_style.clone() },
        CanvasCommand::StrokeText { context, text, x, y, font, stroke_style } => CanvasCommand::StrokeText { context: *context, text: text.clone(), x: *x, y: *y, font: font.clone(), stroke_style: stroke_style.clone() },
        CanvasCommand::DrawImage { context, source, x, y, width, height } => CanvasCommand::DrawImage { context: *context, source: source.clone(), x: *x, y: *y, width: *width, height: *height },
        CanvasCommand::PutImageData { context, width, height, x, y } => CanvasCommand::PutImageData { context: *context, width: *width, height: *height, x: *x, y: *y },
        CanvasCommand::GetImageData { context, x, y, width, height } => CanvasCommand::GetImageData { context: *context, x: *x, y: *y, width: *width, height: *height },
        CanvasCommand::Transform { context, kind, values } => CanvasCommand::Transform { context: *context, kind: kind.clone(), values: copy_bits(values) },
    }
}

/// Views of a list of commands.
pub open spec fn command_views(s: Seq<CanvasCommand>) -> Seq<CommandView> {
    s.map_values(|c: CanvasCommand| c@)
}

fn copy_commands(v: &Vec<CanvasCommand>) -> (r: Vec<CanvasCommand>)
    ensures
        command_views(r@) == command_views(v@),
{
    let mut r: Vec<CanvasCommand> = Vec::new();
    let mut i: usize = 0;
    while i < v.len()
        invariant
            i <= v@.len(),
            r@.len() == i,
            forall|j: int| 0 <= j < i ==> (#[trigger] r@[j])@ == v@[j]@,
        decreases v.len() - i,
    {
        r.push(copy_command(&v[i]));
        i = i + 1;
    }
    assert(command_views(r@) =~= command_views(v@));
    r
}

/// Canvas element snapshot.
#[derive(Debug, Clone, PartialEq, Eq)]
pub struct CanvasElementSnapshot {
    /// Canvas id.
    pub id: CanvasElementId,
    /// Optional DOM node.
    pub dom_node: Option<DomNodeRef>,
    /// Width.
    pub width: u32,
    /// Height.
    pub height: u32,
    /// Contexts.
    pub contexts: Vec<CanvasContextId>,
}

/// Model of a canvas element.
pub struct ElementView {
    pub id: CanvasElementId,
    pub dom_node: Option<DomNodeRef>,
    pub width: u32,
    pub height: u32,
    pub contexts: Seq<CanvasContextId>,
}

impl View for CanvasElementSnapshot {
    type V = ElementView;

    open spec fn view(&self) -> ElementView {
        ElementView {
            id: self.id,
            dom_node: self.dom_node,
            width: self.width,
            height: self.height,
            contexts: self.contexts@,
        }
    }
}

fn copy_ids(v: &Vec<CanvasContextId>) -> (r: Vec<CanvasContextId>)
    ensures
        r@ == v@,
{
    let mut r: Vec<CanvasContextId> = Vec::new();
    let mut i: usize = 0;
    while i < v.len()
        invariant
            i <= v@.len(),
            r@ == v@.take(i as int),
        decreases v.len() - i,
    {
        r.push(v[i]);
        i = i + 1;
        assert(r@ =~= v@.take(i as int));
    }
    assert(v@.take(v.len() as int) =~= v@);
    r
}

fn copy_element(e: &CanvasElementSnapshot) -> (r: CanvasElementSnapshot)
    ensures
        r@ == e@,
{
    CanvasElementSnapshot {
        id: e.id,
        dom_node: e.dom_node,
        width: e.width,
        height: e.height,
        contexts: copy_ids(&e.contexts),
    }
}

/// Canvas context snapshot; the state properties are sorted by name.
#[derive(Debug, Clone, PartialEq)]
pub struct CanvasContextSnapshot {
    /// Context id.
    pub id: CanvasContextId,
    /// Parent canvas.
    pub canvas: CanvasElementId,
    /// Current state properties, sorted by name.
    pub state: Vec<(String, String)>,
    /// Commands.
    pub commands: Vec<CanvasCommand>,
}

/// Model of a 2D context.
pub struct ContextView {
    pub id: CanvasContextId,
    pub canvas: CanvasElementId,
    pub state: Map<Seq<char>, Seq<char>>,
    pub commands: Seq<CommandView>,
}

impl View for CanvasContextSnapshot {
    type V = ContextView;

    open spec fn view(&self) -> ContextView {
        ContextView {
            id: self.id,
            canvas: self.canvas,
            state: decl_view(self.state@),
            commands: command_views(self.commands@),
        }
    }
}

fn copy_context(c: &CanvasContextSnapshot) -> (r: CanvasContextSnapshot)
    ensures
        r@ == c@,
        r.state@ == c.state@,
{
    CanvasContextSnapshot {
        id: c.id,
        canvas: c.canvas,
        state: crate::cssom::copy_pairs(&c.state),
        commands: copy_commands(&c.commands),
    }
}

/// Canvas metrics.
#[derive(Debug, Clone, Copy, PartialEq, Eq, Structural)]
pub struct CanvasMetrics {
    /// Canvas elements created.
    pub canvas_elements_created: u64,
    /// Contexts created.
    pub contexts_created: u64,
    /// getContext calls.
    pub get_context_calls: u64,
    /// State reads.
    pub state_reads: u64,
    /// State writes.
    pub state_writes: u64,
    /// Draw/path commands.
    pub commands_recorded: u64,
    /// Image-data allocations.
    pub image_data_allocations: u64,
    /// Text measurements.
    pub text_measurements: u64,
    /// Data URL exports.
    pub data_url_exports: u64,
    /// Context clears.
    pub command_clears: u64,
}

/// All counters at zero.
pub open spec fn zero_metrics() -> CanvasMetrics {
    CanvasMetrics {
        canvas_elements_created: 0,
        contexts_created: 0,
        get_context_calls: 0,
        state_reads: 0,
        state_writes: 0,
        commands_recorded: 0,
        image_data_allocations: 0,
        text_measurements: 0,
        data_url_exports: 0,
        command_clears: 0,
    }
}

impl Default for CanvasMetrics {
    fn default() -> (m: Self)
        ensures
            m == zero_metrics(),
    {
        CanvasMetrics {
            canvas_elements_created: 0,
            contexts_created: 0,
            get_context_calls: 0,
            state_reads: 0,
            state_writes: 0,
            commands_recorded: 0,
            image_data_allocations: 0,
            text_measurements: 0,
            data_url_exports: 0,
            command_clears: 0,
        }
    }
}

/// Model of the canvas host.
pub struct CanvasHostView {
    /// Next canvas id to hand out.
    pub next_canvas: u64,
    /// Next context id to hand out.
    pub next_context: u64,
    /// Canvases by id.
    pub canvases: Map<u64, ElementView>,
    /// Canvas bound to each DOM node, by node id.
    pub bindings: Map<u64, CanvasElementId>,
    /// Contexts in increasing id order.
    pub contexts: Seq<(u64, ContextView)>,
    /// Counters.
    pub metrics: CanvasMetrics,
}

/// Simulated Canvas 2D host.
#[derive(Debug)]
pub struct ResearchCanvasHost {
    next_canvas: u64,
    next_context: u64,
    canvases: Vec<(u64, CanvasElementSnapshot)>,
    dom_bindings: Vec<(u64, CanvasElementId)>,
    contexts: Vec<(u64, CanvasContextSnapshot)>,
    metrics: CanvasMetrics,
}

/// Models of the context entries, ids kept.
pub open spec fn context_entries(s: Seq<(u64, CanvasContextSnapshot)>) -> Seq<(u64, ContextView)> {
    s.map_values(|e: (u64, CanvasContextSnapshot)| (e.0, e.1@))
}

impl View for ResearchCanvasHost {
    type V = CanvasHostView;

    closed spec fn view(&self) -> CanvasHostView {
        CanvasHostView {
            next_canvas: self.next_canvas,
            next_context: self.next_context,
            canvases: id_map(self.canvases@).map_values(|e: CanvasElementSnapshot| e@),
            bindings: id_map(self.dom_bindings@),
            contexts: context_entries(self.contexts@),
            metrics: self.metrics,
        }
    }
}

/// The contexts as a map from id.
pub open spec fn context_map(v: CanvasHostView) -> Map<u64, ContextView> {
    id_map(v.contexts)
}

/// The host after allocating a canvas for `dom_node`.
pub open spec fn with_canvas(v: CanvasHostView, dom_node: Option<DomNodeRef>) -> CanvasHostView {
    let id = CanvasElementId(v.next_canvas);
    CanvasHostView {
        next_canvas: sat_inc(v.next_canvas),
        canvases: v.canvases.insert(
            v.next_canvas,
            ElementView { id, dom_node, width: 300, height: 150, contexts: Seq::empty() },
        ),
        bindings: match dom_node {
            Some(n) => v.bindings.insert(n.0, id),
            None => v.bindings,
        },
        metrics: CanvasMetrics { canvas_elements_created: sat_inc(v.metrics.canvas_elements_created), ..v.metrics },
        ..v
    }
}

proof fn lemma_context_entries(s: Seq<(u64, CanvasContextSnapshot)>)
    requires
        ids_sorted(s),
    ensures
        ids_sorted(context_entries(s)),
        id_map(context_entries(s)) == id_map(s).map_values(|c: CanvasContextSnapshot| c@),
{
    let e = context_entries(s);
    assert(ids_sorted(e)) by {
        assert forall|a: int, b: int| 0 <= a < b < e.len() implies #[trigger] e[a].0 < #[trigger] e[b].0 by {
            assert(s[a].0 < s[b].0);
        }
    }
    let m = id_map(s).map_values(|c: CanvasContextSnapshot| c@);
    assert forall|k: u64| #[trigger] id_map(e).dom().contains(k) <==> m.dom().contains(k) by {
        if has_id(e, k) {
            let i = choose|i: int| 0 <= i < e.len() && #[trigger] e[i].0 == k;
            assert(s[i].0 == k);
        }
        if has_id(s, k) {
            let i = choose|i: int| 0 <= i < s.len() && #[trigger] s[i].0 == k;
            assert(e[i].0 == k);
        }
    }
    assert forall|k: u64| #[trigger] id_map(e).dom().contains(k) implies id_map(e)[k] == m[k] by {
        let i = choose|i: int| 0 <= i < e.len() && #[trigger] e[i].0 == k;
        crate::keyed::lemma_id_entry(e, i);
        assert(s[i].0 == k);
        crate::keyed::lemma_id_entry(s, i);
    }
    assert(id_map(e) =~= m);
}

impl ResearchCanvasHost {
    #[verifier::type_invariant]
    spec fn wf(self) -> bool {
        &&& ids_sorted(self.canvases@)
        &&& ids_sorted(self.dom_bindings@)
        &&& ids_sorted(self.contexts@)
        &&& forall|i: int| 0 <= i < self.contexts@.len() ==> keys_sorted(#[trigger] self.contexts@[i].1.state@)
        &&& forall|k: u64| #[trigger]
            id_map(self.canvases@).dom().contains(k) ==> id_map(self.canvases@)[k].contexts@.len() <= 1
    }

    /// A host with no canvas and no context; ids start at 1.
    pub fn new() -> (h: Self)
        ensures
            h@.next_canvas == 1,
            h@.next_context == 1,
            h@.canvases == Map::<u64, ElementView>::empty(),
            h@.bindings == Map::<u64, CanvasElementId>::empty(),
            h@.contexts == Seq::<(u64, ContextView)>::empty(),
            h@.metrics == zero_metrics(),
    {
        let h = ResearchCanvasHost {
            next_canvas: 1,
            next_context: 1,
            canvases: Vec::new(),
            dom_bindings: Vec::new(),
            contexts: Vec::new(),
            metrics: CanvasMetrics::default(),
        };
        proof {
            crate::keyed::lemma_id_empty(h.canvases@);
            crate::keyed::lemma_id_empty(h.dom_bindings@);
            assert(h@.canvases =~= Map::<u64, ElementView>::empty());
            assert(h@.contexts =~= Seq::<(u64, ContextView)>::empty());
        }
        h
    }

    fn alloc_canvas(&mut self, dom_node: Option<DomNodeRef>) -> (id: CanvasElementId)
        ensures
            id == CanvasElementId(old(self)@.next_canvas),
            final(self)@ == with_canvas(old(self)@, dom_node),
    {
        proof {
            use_type_invariant(&*self);
        }
        let id = CanvasElementId(self.next_canvas);
        let e = CanvasElementSnapshot { id, dom_node, width: 300, height: 150, contexts: Vec::new() };
        let ghost ev = e@;
        let mut canvases: Vec<(u64, CanvasElementSnapshot)> = Vec::new();
        std::mem::swap(&mut canvases, &mut self.canvases);
        let ghost c0 = canvases@;
        id_insert(&mut canvases, id.0, e);
        proof {
            assert forall|k: u64| #[trigger] id_map(canvases@).dom().contains(k) implies id_map(canvases@)[k].contexts@.len()
                <= 1 by {
                if k != id.0 {
                    assert(id_map(c0).dom().contains(k));
                }
            }
        }
        self.canvases = canvases;
        match dom_node {
            Some(node) => {
                let mut bindings: Vec<(u64, CanvasElementId)> = Vec::new();
                std::mem::swap(&mut bindings, &mut self.dom_bindings);
                id_insert(&mut bindings, node.0, id);
                self.dom_bindings = bindings;
            },
            None => {},
        }
        self.next_canvas = self.next_canvas.saturating_add(1);
        self.metrics.canvas_elements_created = self.metrics.canvas_elements_created.saturating_add(1);
        assert(self@.canvases =~= old(self)@.canvases.insert(id.0, ev));
        id
    }

    /// Creates a canvas, bound to `dom_node` when one is given.
    pub fn create_canvas(&mut self, dom_node: Option<DomNodeRef>) -> (id: CanvasElementId)
        ensures
            id == CanvasElementId(old(self)@.next_canvas),
            final(self)@ == with_canvas(old(self)@, dom_node),
    {
        self.alloc_canvas(dom_node)
    }

    /// The canvas bound to `node`, creating and binding one when there is none.
    pub fn bind_dom_node(&mut self, node: DomNodeRef) -> (id: CanvasElementId)
        ensures
            old(self)@.bindings.dom().contains(node.0) ==> id == old(self)@.bindings[node.0] && final(self)@ == old(self)@,
            !old(self)@.bindings.dom().contains(node.0) ==> id == CanvasElementId(old(self)@.next_canvas)
                && final(self)@ == with_canvas(old(self)@, Some(node)),
    {
        proof {
            use_type_invariant(&*self);
        }
        match id_find(&self.dom_bindings, node.0) {
            Ok(i) => {
                proof {
                    crate::keyed::lemma_id_entry(self.dom_bindings@, i as int);
                }
                self.dom_bindings[i].1
            },
            Err(_) => self.alloc_canvas(Some(node)),
        }
    }

    /// The canvas bound to `node`.
    pub fn canvas_for_dom_node(&self, node: DomNodeRef) -> (r: Option<CanvasElementId>)
        ensures
            r == (if self@.bindings.dom().contains(node.0) {
                Some(self@.bindings[node.0])
            } else {
                None
            }),
    {
        proof {
            use_type_invariant(self);
        }
        match id_find(&self.dom_bindings, node.0) {
            Ok(i) => {
                proof {
                    crate::keyed::lemma_id_entry(self.dom_bindings@, i as int);
                }
                Some(self.dom_bindings[i].1)
            },
            Err(_) => None,
        }
    }

    /// Snapshot of a canvas.
    pub fn canvas_snapshot(&self, canvas: CanvasElementId) -> (r: Option<CanvasElementSnapshot>)
        ensures
            match r {
                Some(s) => self@.canvases.dom().contains(canvas.0) && s@ == self@.canvases[canvas.0],
                None => !self@.canvases.dom().contains(canvas.0),
            },
    {
        proof {
            use_type_invariant(self);
        }
        match id_find(&self.canvases, canvas.0) {
            Ok(i) => {
                proof {
                    crate::keyed::lemma_id_entry(self.canvases@, i as int);
                }
                Some(copy_element(&self.canvases[i].1))
            },
            Err(_) => None,
        }
    }
}

impl Default for ResearchCanvasHost {
    fn default() -> (h: Self)
        ensures
            h@.next_canvas == 1,
            h@.next_context == 1,
            h@.canvases == Map::<u64, ElementView>::empty(),
            h@.bindings == Map::<u64, CanvasElementId>::empty(),
            h@.contexts == Seq::<(u64, ContextView)>::empty(),
            h@.metrics == zero_metrics(),
    {
        ResearchCanvasHost::new()
    }
}

/// The state properties a new 2D context starts with.
pub open spec fn default_state_map() -> Map<Seq<char>, Seq<char>> {
    Map::empty()
        .insert("fillStyle"@, "#000000"@)
        .insert("strokeStyle"@, "#000000"@)
        .insert("font"@, "10px sans-serif"@)
        .insert("textAlign"@, "start"@)
        .insert("textBaseline"@, "alphabetic"@)
        .insert("lineWidth"@, "1"@)
        .insert("globalAlpha"@, "1"@)
        .insert("lineCap"@, "butt"@)
        .insert("lineJoin"@, "miter"@)
        .insert("miterLimit"@, "10"@)
        .insert("globalCompositeOperation"@, "source-over"@)
}

fn put_state(t: &mut Vec<(String, String)>, key: String, value: String)
    requires
        keys_sorted(old(t)@),
    ensures
        keys_sorted(final(t)@),
        decl_view(final(t)@) == decl_view(old(t)@).insert(key@, value@),
{
    let ghost k = key@;
    let ghost v = value@;
    let ghost t0 = t@;
    table_insert(t, key, value);
    assert(decl_view(t@) =~= decl_view(t0).insert(k, v));
}

fn default_state() -> (t: Vec<(String, String)>)
    ensures
        keys_sorted(t@),
        decl_view(t@) == default_state_map(),
{
    let mut t: Vec<(String, String)> = Vec::new();
    proof {
        crate::keyed::lemma_table_empty(t@);
        assert(decl_view(t@) =~= Map::<Seq<char>, Seq<char>>::empty());
    }
    put_state(&mut t, owned("fillStyle"), owned("#000000"));
    put_state(&mut t, owned("strokeStyle"), owned("#000000"));
    put_state(&mut t, owned("font"), owned("10px sans-serif"));
    put_state(&mut t, owned("textAlign"), owned("start"));
    put_state(&mut t, owned("textBaseline"), owned("alphabetic"));
    put_state(&mut t, owned("lineWidth"), owned("1"));
    put_state(&mut t, owned("globalAlpha"), owned("1"));
    put_state(&mut t, owned("lineCap"), owned("butt"));
    put_state(&mut t, owned("lineJoin"), owned("miter"));
    put_state(&mut t, owned("miterLimit"), owned("10"));
    put_state(&mut t, owned("globalCompositeOperation"), owned("source-over"));
    t
}

/// What `context_2d` does: the canvas's first context when it has one;
/// otherwise a new context with the default state, attached to the canvas
/// when the canvas exists. The call is counted either way.
pub open spec fn context_2d_result(v: CanvasHostView, canvas: CanvasElementId) -> (CanvasContextId, CanvasHostView) {
    let counted = CanvasMetrics { get_context_calls: sat_inc(v.metrics.get_context_calls), ..v.metrics };
    if v.canvases.dom().contains(canvas.0) && v.canvases[canvas.0].contexts.len() > 0 {
        (v.canvases[canvas.0].contexts[0], CanvasHostView { metrics: counted, ..v })
    } else {
        let id = CanvasContextId(v.next_context);
        (
            id,
            CanvasHostView {
                next_context: sat_inc(v.next_context),
                canvases: if v.canvases.dom().contains(canvas.0) {
                    v.canvases.insert(
                        canvas.0,
                        ElementView { contexts: v.canvases[canvas.0].contexts.push(id), ..v.canvases[canvas.0] },
                    )
                } else {
                    v.canvases
                },
                metrics: CanvasMetrics { contexts_created: sat_inc(counted.contexts_created), ..counted },
                ..v
            },
        )
    }
}

/// The context entry `k` with its state property `name` set to `value`.
pub open spec fn with_state(s: Seq<(u64, ContextView)>, k: u64, name: Seq<char>, value: Seq<char>) -> Seq<(u64, ContextView)> {
    s.map_values(
        |e: (u64, ContextView)|
            if e.0 == k {
                (e.0, ContextView { state: e.1.state.insert(name, value), ..e.1 })
            } else {
                e
            },
    )
}

/// The value of state property `name` of context `k`, empty when either is missing.
pub open spec fn state_value(v: CanvasHostView, k: u64, name: Seq<char>) -> Seq<char> {
    if context_map(v).dom().contains(k) && context_map(v)[k].state.dom().contains(name) {
        context_map(v)[k].state[name]
    } else {
        Seq::empty()
    }
}

impl ResearchCanvasHost {
    /// The canvas's 2D context, created on first request.
    pub fn context_2d(&mut self, canvas: CanvasElementId) -> (id: CanvasContextId)
        ensures
            ids_sorted(final(self)@.contexts),
            id == context_2d_result(old(self)@, canvas).0,
            final(self)@.next_canvas == context_2d_result(old(self)@, canvas).1.next_canvas,
            final(self)@.next_context == context_2d_result(old(self)@, canvas).1.next_context,
            final(self)@.canvases == context_2d_result(old(self)@, canvas).1.canvases,
            final(self)@.bindings == context_2d_result(old(self)@, canvas).1.bindings,
            final(self)@.metrics == context_2d_result(old(self)@, canvas).1.metrics,
            context_map(final(self)@) == (if old(self)@.canvases.dom().contains(canvas.0)
                && old(self)@.canvases[canvas.0].contexts.len() > 0 {
                context_map(old(self)@)
            } else {
                context_map(old(self)@).insert(
                    old(self)@.next_context,
                    ContextView {
                        id: CanvasContextId(old(self)@.next_context),
                        canvas,
                        state: default_state_map(),
                        commands: Seq::empty(),
                    },
                )
            }),
            old(self)@.canvases.dom().contains(canvas.0) && old(self)@.canvases[canvas.0].contexts.len() > 0
                ==> final(self)@.contexts == old(self)@.contexts,
    {
        proof {
            use_type_invariant(&*self);
            lemma_context_entries(self.contexts@);
        }
        self.metrics.get_context_calls = self.metrics.get_context_calls.saturating_add(1);
        let found = id_find(&self.canvases, canvas.0);
        match found {
            Ok(i) => {
                proof {
                    crate::keyed::lemma_id_entry(self.canvases@, i as int);
                }
                if self.canvases[i].1.contexts.len() > 0 {
                    let existing = self.canvases[i].1.contexts[0];
                    return existing;
                }
            },
            Err(_) => {},
        }
        let id = CanvasContextId(self.next_context);
        self.next_context = self.next_context.saturating_add(1);
        let snap = CanvasContextSnapshot { id, canvas, state: default_state(), commands: Vec::new() };
        let ghost sv = snap@;
        assert(sv.commands =~= Seq::<CommandView>::empty());
        let mut contexts: Vec<(u64, CanvasContextSnapshot)> = Vec::new();
        std::mem::swap(&mut contexts, &mut self.contexts);
        let ghost x0 = contexts@;
        id_insert(&mut contexts, id.0, snap);
        proof {
            assert forall|j: int| 0 <= j < contexts@.len() implies keys_sorted(#[trigger] contexts@[j].1.state@) by {
                crate::keyed::lemma_id_entry(contexts@, j);
                let k = contexts@[j].0;
                if k != id.0 {
                    assert(id_map(x0).dom().contains(k));
                    let p = choose|p: int| 0 <= p < x0.len() && #[trigger] x0[p].0 == k;
                    crate::keyed::lemma_id_entry(x0, p);
                }
            }
            lemma_context_entries(contexts@);
        }
        self.contexts = contexts;
        match found {
            Ok(i) => {
                let mut e = copy_element(&self.canvases[i].1);
                e.contexts.push(id);
                let ghost ev = e@;
                let mut canvases: Vec<(u64, CanvasElementSnapshot)> = Vec::new();
                std::mem::swap(&mut canvases, &mut self.canvases);
                let ghost c0 = canvases@;
                id_insert(&mut canvases, canvas.0, e);
                proof {
                    assert forall|k: u64| #[trigger] id_map(canvases@).dom().contains(k) implies id_map(
                        canvases@,
                    )[k].contexts@.len() <= 1 by {
                        if k != canvas.0 {
                            assert(id_map(c0).dom().contains(k));
                        }
                    }
                }
                self.canvases = canvases;
                assert(self@.canvases =~= old(self)@.canvases.insert(canvas.0, ev));
            },
            Err(_) => {},
        }
        self.metrics.contexts_created = self.metrics.contexts_created.saturating_add(1);
        proof {
            assert(id_map(context_entries(x0)) =~= context_map(old(self)@));
            assert(context_map(self@) =~= context_map(old(self)@).insert(id.0, sv));
        }
        id
    }

    /// Snapshot of a context; its state comes sorted by name.
    pub fn context_snapshot(&self, context: CanvasContextId) -> (r: Option<CanvasContextSnapshot>)
        ensures
            match r {
                Some(s) => context_map(self@).dom().contains(context.0) && s@ == context_map(self@)[context.0]
                    && keys_sorted(s.state@),
                None => !context_map(self@).dom().contains(context.0),
            },
    {
        proof {
            use_type_invariant(self);
            lemma_context_entries(self.contexts@);
        }
        match id_find(&self.contexts, context.0) {
            Ok(i) => {
                proof {
                    crate::keyed::lemma_id_entry(self.contexts@, i as int);
                }
                Some(copy_context(&self.contexts[i].1))
            },
            Err(_) => None,
        }
    }

    /// Reads a state property of a context; empty when either is missing.
    pub fn state_get(&mut self, context: CanvasContextId, property: &str) -> (r: String)
        ensures
            r@ == state_value(old(self)@, context.0, property@),
            final(self)@ == (CanvasHostView {
                metrics: CanvasMetrics { state_reads: sat_inc(old(self)@.metrics.state_reads), ..old(self)@.metrics },
                ..old(self)@
            }),
    {
        proof {
            use_type_invariant(&*self);
            lemma_context_entries(self.contexts@);
        }
        self.metrics.state_reads = self.metrics.state_reads.saturating_add(1);
        let pv = crate::text::chars_of(property);
        match id_find(&self.contexts, context.0) {
            Ok(i) => {
                proof {
                    crate::keyed::lemma_id_entry(self.contexts@, i as int);
                }
                match table_get(&self.contexts[i].1.state, pv.as_slice()) {
                    Some(v) => v.clone(),
                    None => String::new(),
                }
            },
            Err(_) => String::new(),
        }
    }

    /// Writes a state property of a context, when the context exists; the
    /// write is counted either way.
    pub fn state_set(&mut self, context: CanvasContextId, property: &str, value: String)
        ensures
            final(self)@ == (CanvasHostView {
                contexts: with_state(old(self)@.contexts, context.0, property@, value@),
                metrics: CanvasMetrics { state_writes: sat_inc(old(self)@.metrics.state_writes), ..old(self)@.metrics },
                ..old(self)@
            }),
    {
        proof {
            use_type_invariant(&*self);
        }
        let ghost vv = value@;
        let mut contexts: Vec<(u64, CanvasContextSnapshot)> = Vec::new();
        std::mem::swap(&mut contexts, &mut self.contexts);
        let ghost x0 = contexts@;
        match id_find(&contexts, context.0) {
            Ok(i) => {
                let (key, mut snap) = contexts.remove(i);
                put_state(&mut snap.state, owned(property), value);
                contexts.insert(i, (key, snap));
                proof {
                    assert(contexts@ =~= x0.update(i as int, (key, snap)));
                    assert forall|a: int, b: int| 0 <= a < b < contexts@.len() implies #[trigger] contexts@[a].0
                        < #[trigger] contexts@[b].0 by {
                        assert(x0[a].0 < x0[b].0);
                    }
                    assert forall|j: int| 0 <= j < contexts@.len() implies keys_sorted(#[trigger] contexts@[j].1.state@) by {
                        if j != i {
                            assert(contexts@[j] == x0[j]);
                        }
                    }
                    assert forall|j: int| 0 <= j < x0.len() && j != i implies x0[j].0 != context.0 by {
                        if j < i {
                            assert(x0[j].0 < x0[i as int].0);
                        } else {
                            assert(x0[i as int].0 < x0[j].0);
                        }
                    }
                    assert(context_entries(contexts@) =~= with_state(context_entries(x0), context.0, property@, vv));
                }
            },
            Err(_) => {
                proof {
                    assert forall|j: int| 0 <= j < x0.len() implies x0[j].0 != context.0 by {
                        assert(has_id(x0, context.0) ==> false);
                        if x0[j].0 == context.0 {
                            assert(has_id(x0, context.0));
                        }
                    }
                    assert(context_entries(contexts@) =~= with_state(context_entries(x0), context.0, property@, vv));
                }
            },
        }
        self.contexts = contexts;
        self.metrics.state_writes = self.metrics.state_writes.saturating_add(1);
    }
}

/// The context entry `k` with `c` appended to its commands.
pub open spec fn with_command(s: Seq<(u64, ContextView)>, k: u64, c: CommandView) -> Seq<(u64, ContextView)> {
    s.map_values(
        |e: (u64, ContextView)|
            if e.0 == k {
                (e.0, ContextView { commands: e.1.commands.push(c), ..e.1 })
            } else {
                e
            },
    )
}

/// The context entries whose ids are among `ids` with their commands cleared.
pub open spec fn cleared(s: Seq<(u64, ContextView)>, ids: Seq<CanvasContextId>) -> Seq<(u64, ContextView)> {
    s.map_values(
        |e: (u64, ContextView)|
            if ids.contains(CanvasContextId(e.0)) {
                (e.0, ContextView { commands: Seq::empty(), ..e.1 })
            } else {
                e
            },
    )
}

/// The host after resizing a canvas: when it exists, its new size, and its
/// contexts' commands cleared.
pub open spec fn resized(v: CanvasHostView, canvas: CanvasElementId, width: u32, height: u32) -> CanvasHostView {
    if v.canvases.dom().contains(canvas.0) {
        CanvasHostView {
            canvases: v.canvases.insert(canvas.0, ElementView { width, height, ..v.canvases[canvas.0] }),
            contexts: cleared(v.contexts, v.canvases[canvas.0].contexts),
            ..v
        }
    } else {
        v
    }
}

/// The commands of every context, in increasing context id order.
pub open spec fn all_commands(s: Seq<(u64, ContextView)>) -> Seq<CommandView>
    decreases s.len(),
{
    if s.len() == 0 {
        Seq::empty()
    } else {
        all_commands(s.drop_last()) + s.last().1.commands
    }
}

/// How many commands the contexts `ids` hold (a missing context holds none).
pub open spec fn commands_on(m: Map<u64, ContextView>, ids: Seq<CanvasContextId>) -> int
    decreases ids.len(),
{
    if ids.len() == 0 {
        0
    } else {
        commands_on(m, ids.drop_last()) + if m.dom().contains(ids.last().0) {
            m[ids.last().0].commands.len() as int
        } else {
            0
        }
    }
}

/// How many commands the canvas's contexts hold; none for a missing canvas.
pub open spec fn canvas_command_count(v: CanvasHostView, canvas: CanvasElementId) -> int {
    if v.canvases.dom().contains(canvas.0) {
        commands_on(context_map(v), v.canvases[canvas.0].contexts)
    } else {
        0
    }
}

/// The data URL exported for a canvas.
pub open spec fn data_url(mime: Seq<char>, count: nat) -> Seq<char> {
    "data:"@ + mime + ";sylphos-canvas,commands="@ + decimal(count)
}

/// The entry of context `k`: that of `key`, unless `key` is absent.
proof fn lemma_other_ids(x: Seq<(u64, CanvasContextSnapshot)>, i: int)
    requires
        ids_sorted(x),
        0 <= i < x.len(),
    ensures
        forall|j: int| 0 <= j < x.len() && j != i ==> #[trigger] x[j].0 != x[i].0,
{
    assert forall|j: int| 0 <= j < x.len() && j != i implies #[trigger] x[j].0 != x[i].0 by {
        if j < i {
            assert(x[j].0 < x[i].0);
        } else {
            assert(x[i].0 < x[j].0);
        }
    }
}

proof fn lemma_absent_id(x: Seq<(u64, CanvasContextSnapshot)>, k: u64)
    requires
        !has_id(x, k),
    ensures
        forall|j: int| 0 <= j < x.len() ==> #[trigger] x[j].0 != k,
{
    assert forall|j: int| 0 <= j < x.len() implies #[trigger] x[j].0 != k by {
        if x[j].0 == k {
            assert(has_id(x, k));
        }
    }
}

/// Appends `c` to the commands of context `k`, when it exists.
fn push_command_to(t: &mut Vec<(u64, CanvasContextSnapshot)>, k: u64, c: CanvasCommand)
    requires
        ids_sorted(old(t)@),
        forall|j: int| 0 <= j < old(t)@.len() ==> keys_sorted(#[trigger] old(t)@[j].1.state@),
    ensures
        ids_sorted(final(t)@),
        forall|j: int| 0 <= j < final(t)@.len() ==> keys_sorted(#[trigger] final(t)@[j].1.state@),
        context_entries(final(t)@) == with_command(context_entries(old(t)@), k, c@),
{
    let ghost x0 = t@;
    let ghost cv = c@;
    match id_find(t, k) {
        Ok(i) => {
            let (key, mut snap) = t.remove(i);
            snap.commands.push(c);
            t.insert(i, (key, snap));
            proof {
                assert(t@ =~= x0.update(i as int, (key, snap)));
                assert forall|a: int, b: int| 0 <= a < b < t@.len() implies #[trigger] t@[a].0 < #[trigger] t@[b].0 by {
                    assert(x0[a].0 < x0[b].0);
                }
                assert forall|j: int| 0 <= j < t@.len() implies keys_sorted(#[trigger] t@[j].1.state@) by {
                    if j != i {
                        assert(t@[j] == x0[j]);
                    }
                }
                lemma_other_ids(x0, i as int);
                assert(snap@.commands =~= x0[i as int].1@.commands.push(cv));
                assert(context_entries(t@) =~= with_command(context_entries(x0), k, cv));
            }
        },
        Err(_) => {
            proof {
                lemma_absent_id(x0, k);
                assert(context_entries(t@) =~= with_command(context_entries(x0), k, cv));
            }
        },
    }
}

/// Clears the commands of context `k`, when it exists.
fn clear_commands_of(t: &mut Vec<(u64, CanvasContextSnapshot)>, k: u64)
    requires
        ids_sorted(old(t)@),
        forall|j: int| 0 <= j < old(t)@.len() ==> keys_sorted(#[trigger] old(t)@[j].1.state@),
    ensures
        ids_sorted(final(t)@),
        forall|j: int| 0 <= j < final(t)@.len() ==> keys_sorted(#[trigger] final(t)@[j].1.state@),
        context_entries(final(t)@) == cleared(context_entries(old(t)@), seq![CanvasContextId(k)]),
{
    let ghost x0 = t@;
    let ghost ids = seq![CanvasContextId(k)];
    assert forall|q: u64| #[trigger] ids.contains(CanvasContextId(q)) <==> q == k by {
        if ids.contains(CanvasContextId(q)) {
            let p = choose|p: int| 0 <= p < ids.len() && ids[p] == CanvasContextId(q);
        }
        if q == k {
            assert(ids[0] == CanvasContextId(q));
        }
    }
    match id_find(t, k) {
        Ok(i) => {
            let (key, mut snap) = t.remove(i);
            snap.commands = Vec::new();
            t.insert(i, (key, snap));
            proof {
                assert(t@ =~= x0.update(i as int, (key, snap)));
                assert forall|a: int, b: int| 0 <= a < b < t@.len() implies #[trigger] t@[a].0 < #[trigger] t@[b].0 by {
                    assert(x0[a].0 < x0[b].0);
                }
                assert forall|j: int| 0 <= j < t@.len() implies keys_sorted(#[trigger] t@[j].1.state@) by {
                    if j != i {
                        assert(t@[j] == x0[j]);
                    }
                }
                lemma_other_ids(x0, i as int);
                assert(snap@.commands =~= Seq::<CommandView>::empty());
                assert(context_entries(t@) =~= cleared(context_entries(x0), ids));
            }
        },
        Err(_) => {
            proof {
                lemma_absent_id(x0, k);
                assert(context_entries(t@) =~= cleared(context_entries(x0), ids));
            }
        },
    }
}

impl ResearchCanvasHost {
    /// Records a command on the context it names, when that context exists;
    /// the command is counted either way.
    pub fn record_command(&mut self, command: CanvasCommand)
        ensures
            final(self)@ == (CanvasHostView {
                contexts: with_command(old(self)@.contexts, command_context(command@).0, command@),
                metrics: CanvasMetrics { commands_recorded: sat_inc(old(self)@.metrics.commands_recorded), ..old(self)@.metrics },
                ..old(self)@
            }),
    {
        proof {
            use_type_invariant(&*self);
        }
        let context = context_of(&command);
        let mut contexts: Vec<(u64, CanvasContextSnapshot)> = Vec::new();
        std::mem::swap(&mut contexts, &mut self.contexts);
        push_command_to(&mut contexts, context.0, command);
        self.contexts = contexts;
        self.metrics.commands_recorded = self.metrics.commands_recorded.saturating_add(1);
    }

    /// Clears a context's commands, when it exists; the clear is counted either way.
    pub fn clear_commands(&mut self, context: CanvasContextId)
        ensures
            final(self)@ == (CanvasHostView {
                contexts: cleared(old(self)@.contexts, seq![context]),
                metrics: CanvasMetrics { command_clears: sat_inc(old(self)@.metrics.command_clears), ..old(self)@.metrics },
                ..old(self)@
            }),
    {
        proof {
            use_type_invariant(&*self);
        }
        let mut contexts: Vec<(u64, CanvasContextSnapshot)> = Vec::new();
        std::mem::swap(&mut contexts, &mut self.contexts);
        clear_commands_of(&mut contexts, context.0);
        self.contexts = contexts;
        self.metrics.command_clears = self.metrics.command_clears.saturating_add(1);
    }

    /// Resizes a canvas, when it exists, and clears the commands of its contexts.
    pub fn set_canvas_size(&mut self, canvas: CanvasElementId, width: u32, height: u32)
        ensures
            final(self)@ == resized(old(self)@, canvas, width, height),
            ids_sorted(final(self)@.contexts),
    {
        proof {
            use_type_invariant(&*self);
        }
        match id_find(&self.canvases, canvas.0) {
            Ok(i) => {
                proof {
                    crate::keyed::lemma_id_entry(self.canvases@, i as int);
                }
                let mut e = copy_element(&self.canvases[i].1);
                e.width = width;
                e.height = height;
                let ids = copy_ids(&e.contexts);
                let ghost ev = e@;
                let mut canvases: Vec<(u64, CanvasElementSnapshot)> = Vec::new();
                std::mem::swap(&mut canvases, &mut self.canvases);
                let ghost c0 = canvases@;
                id_insert(&mut canvases, canvas.0, e);
                proof {
                    assert forall|k: u64| #[trigger] id_map(canvases@).dom().contains(k) implies id_map(
                        canvases@,
                    )[k].contexts@.len() <= 1 by {
                        if k != canvas.0 {
                            assert(id_map(c0).dom().contains(k));
                        }
                    }
                }
                self.canvases = canvases;
                assert(self@.canvases =~= old(self)@.canvases.insert(canvas.0, ev));
                let mut contexts: Vec<(u64, CanvasContextSnapshot)> = Vec::new();
                std::mem::swap(&mut contexts, &mut self.contexts);
                let ghost x0 = context_entries(contexts@);
                assert(cleared(x0, ids@.take(0)) =~= x0);
                let mut j: usize = 0;
                while j < ids.len()
                    invariant
                        j <= ids@.len(),
                        ids_sorted(contexts@),
                        forall|q: int| 0 <= q < contexts@.len() ==> keys_sorted(#[trigger] contexts@[q].1.state@),
                        context_entries(contexts@) == cleared(x0, ids@.take(j as int)),
                    decreases ids.len() - j,
                {
                    let ghost before = context_entries(contexts@);
                    clear_commands_of(&mut contexts, ids[j].0);
                    proof {
                        let t0 = ids@.take(j as int);
                        let t1 = ids@.take(j as int + 1);
                        assert forall|c: CanvasContextId| #[trigger] t1.contains(c) <==> t0.contains(c) || c == ids@[j as int] by {
                            if t1.contains(c) {
                                let p = choose|p: int| 0 <= p < t1.len() && t1[p] == c;
                                if p < j {
                                    assert(t0[p] == c);
                                }
                            }
                            if t0.contains(c) {
                                let p = choose|p: int| 0 <= p < t0.len() && t0[p] == c;
                                assert(t1[p] == c);
                            }
                            if c == ids@[j as int] {
                                assert(t1[j as int] == c);
                            }
                        }
                        let one = seq![CanvasContextId(ids@[j as int].0)];
                        assert forall|q: u64| #[trigger] one.contains(CanvasContextId(q)) <==> CanvasContextId(q) == ids@[j as int] by {
                            if one.contains(CanvasContextId(q)) {
                                let p = choose|p: int| 0 <= p < one.len() && one[p] == CanvasContextId(q);
                            }
                            if CanvasContextId(q) == ids@[j as int] {
                                assert(one[0] == CanvasContextId(q));
                            }
                        }
                        assert(context_entries(contexts@) =~= cleared(x0, t1));
                    }
                    j = j + 1;
                }
                assert(ids@.take(ids@.len() as int) =~= ids@);
                self.contexts = contexts;
            },
            Err(_) => {},
        }
        proof {
            lemma_context_entries(self.contexts@);
        }
    }

    /// Counts a text measurement and gives the font it is measured in: the
    /// context's `font` property, or `10px sans-serif`.
    pub fn measure_text_font(&mut self, context: CanvasContextId) -> (font: String)
        ensures
            font@ == (if context_map(old(self)@).dom().contains(context.0) && context_map(
                old(self)@,
            )[context.0].state.dom().contains("font"@) {
                context_map(old(self)@)[context.0].state["font"@]
            } else {
                "10px sans-serif"@
            }),
            final(self)@ == (CanvasHostView {
                metrics: CanvasMetrics { text_measurements: sat_inc(old(self)@.metrics.text_measurements), ..old(self)@.metrics },
                ..old(self)@
            }),
    {
        proof {
            use_type_invariant(&*self);
            lemma_context_entries(self.contexts@);
        }
        self.metrics.text_measurements = self.metrics.text_measurements.saturating_add(1);
        let key = crate::text::chars_of("font");
        match id_find(&self.contexts, context.0) {
            Ok(i) => {
                proof {
                    crate::keyed::lemma_id_entry(self.contexts@, i as int);
                }
                match table_get(&self.contexts[i].1.state, key.as_slice()) {
                    Some(v) => v.clone(),
                    None => owned("10px sans-serif"),
                }
            },
            Err(_) => owned("10px sans-serif"),
        }
    }

    /// Describes a `width` by `height` RGBA image buffer.
    pub fn create_image_data(&mut self, width: u32, height: u32) -> (r: CanvasImageData)
        requires
            width * height * 4 <= usize::MAX,
        ensures
            r == (CanvasImageData { width, height, byte_length: (width * height * 4) as usize }),
            final(self)@ == (CanvasHostView {
                metrics: CanvasMetrics {
                    image_data_allocations: sat_inc(old(self)@.metrics.image_data_allocations),
                    ..old(self)@.metrics
                },
                ..old(self)@
            }),
    {
        proof {
            use_type_invariant(&*self);
        }
        self.metrics.image_data_allocations = self.metrics.image_data_allocations.saturating_add(1);
        let w = width as usize;
        let h = height as usize;
        assert(w * h <= w * h * 4) by (nonlinear_arith)
            requires
                0 <= w,
                0 <= h,
        ;
        CanvasImageData { width, height, byte_length: w * h * 4 }
    }

    /// Exports a canvas as a data URL that carries how many commands its
    /// contexts hold.
    pub fn to_data_url(&mut self, canvas: CanvasElementId, mime: &str) -> (r: String)
        ensures
            r@ == data_url(mime@, canvas_command_count(old(self)@, canvas) as nat),
            final(self)@ == (CanvasHostView {
                metrics: CanvasMetrics { data_url_exports: sat_inc(old(self)@.metrics.data_url_exports), ..old(self)@.metrics },
                ..old(self)@
            }),
    {
        proof {
            use_type_invariant(&*self);
            lemma_context_entries(self.contexts@);
        }
        self.metrics.data_url_exports = self.metrics.data_url_exports.saturating_add(1);
        let mut total: usize = 0;
        match id_find(&self.canvases, canvas.0) {
            Ok(i) => {
                proof {
                    crate::keyed::lemma_id_entry(self.canvases@, i as int);
                }
                let ids = copy_ids(&self.canvases[i].1.contexts);
                let ghost m = context_map(self@);
                let mut j: usize = 0;
                while j < ids.len()
                    invariant
                        j <= ids@.len() <= 1,
                        ids_sorted(self.contexts@),
                        m == context_map(self@),
                        context_map(self@) == id_map(self.contexts@).map_values(|c: CanvasContextSnapshot| c@),
                        total == commands_on(m, ids@.take(j as int)),
                        j == 0 ==> total == 0,
                    decreases ids.len() - j,
                {
                    assert(ids@.take(j as int + 1).drop_last() =~= ids@.take(j as int));
                    match id_find(&self.contexts, ids[j].0) {
                        Ok(p) => {
                            proof {
                                crate::keyed::lemma_id_entry(self.contexts@, p as int);
                            }
                            total = total + self.contexts[p].1.commands.len();
                        },
                        Err(_) => {},
                    }
                    j = j + 1;
                }
                assert(ids@.take(ids@.len() as int) =~= ids@);
            },
            Err(_) => {},
        }
        let mut r = owned("data:");
        append_str(&mut r, mime);
        append_str(&mut r, ";sylphos-canvas,commands=");
        let n = decimal_string(total as u64);
        append_str(&mut r, n.as_str());
        r
    }

    /// The counters.
    pub fn metrics(&self) -> (m: CanvasMetrics)
        ensures
            m == self@.metrics,
    {
        self.metrics
    }

    /// Every recorded command, context by context in increasing id order.
    pub fn commands(&self) -> (r: Vec<CanvasCommand>)
        ensures
            command_views(r@) == all_commands(self@.contexts),
    {
        let mut r: Vec<CanvasCommand> = Vec::new();
        let mut i: usize = 0;
        while i < self.contexts.len()
            invariant
                i <= self.contexts@.len(),
                command_views(r@) == all_commands(context_entries(self.contexts@).take(i as int)),
            decreases self.contexts.len() - i,
        {
            let ghost before = command_views(r@);
            let ghost cv = command_views(self.contexts@[i as int].1.commands@);
            let mut k: usize = 0;
            while k < self.contexts[i].1.commands.len()
                invariant
                    i < self.contexts@.len(),
                    k <= self.contexts@[i as int].1.commands@.len(),
                    cv == command_views(self.contexts@[i as int].1.commands@),
                    command_views(r@) == before + cv.take(k as int),
                decreases self.contexts@[i as int].1.commands@.len() - k,
            {
                let ghost r0 = r@;
                let c = copy_command(&self.contexts[i].1.commands[k]);
                r.push(c);
                proof {
                    assert(command_views(r@) =~= command_views(r0).push(c@));
                    assert(cv.take(k as int + 1) =~= cv.take(k as int).push(cv[k as int]));
                    assert(command_views(r@) =~= before + cv.take(k as int + 1));
                }
                k = k + 1;
            }
            proof {
                let e = context_entries(self.contexts@);
                assert(e.take(i as int + 1).drop_last() =~= e.take(i as int));
                assert(cv.take(k as int) =~= cv);
            }
            i = i + 1;
        }
        assert(context_entries(self.contexts@).take(i as int) =~= context_entries(self.contexts@));
        r
    }
}

proof fn lemma_commands_on_zero(m: Map<u64, ContextView>, ids: Seq<CanvasContextId>)
    requires
        forall|q: int|
            0 <= q < ids.len() && m.dom().contains(#[trigger] ids[q].0) ==> m[ids[q].0].commands.len() == 0,
    ensures
        commands_on(m, ids) == 0,
    decreases ids.len(),
{
    if ids.len() > 0 {
        let d = ids.drop_last();
        assert forall|q: int| 0 <= q < d.len() && m.dom().contains(#[trigger] d[q].0) implies m[d[q].0].commands.len()
            == 0 by {
            assert(d[q] == ids[q]);
        }
        lemma_commands_on_zero(m, d);
        assert(ids.last() == ids[ids.len() - 1]);
    }
}

/// The entry of `k` in a context list updated entry by entry, ids kept.
proof fn lemma_entry_of(s: Seq<(u64, ContextView)>, t: Seq<(u64, ContextView)>, k: u64)
    requires
        ids_sorted(s),
        t.len() == s.len(),
        forall|i: int| 0 <= i < s.len() ==> (#[trigger] t[i]).0 == s[i].0,
        id_map(s).dom().contains(k),
    ensures
        ids_sorted(t),
        id_map(t).dom().contains(k),
        exists|i: int| 0 <= i < s.len() && s[i].0 == k && id_map(s)[k] == s[i].1 && id_map(t)[k] == #[trigger] t[i].1,
{
    assert(ids_sorted(t)) by {
        assert forall|a: int, b: int| 0 <= a < b < t.len() implies #[trigger] t[a].0 < #[trigger] t[b].0 by {
            assert(t[a].0 == s[a].0);
            assert(t[b].0 == s[b].0);
        }
    }
    let i = choose|i: int| 0 <= i < s.len() && #[trigger] s[i].0 == k;
    crate::keyed::lemma_id_entry(s, i);
    assert(t[i].0 == k);
    crate::keyed::lemma_id_entry(t, i);
}

/// Asking a canvas for its 2D context a second time gives the context the
/// first request gave, and creates none.
pub proof fn lemma_context_2d_stable(v: CanvasHostView, canvas: CanvasElementId)
    requires
        v.canvases.dom().contains(canvas.0),
    ensures
        context_2d_result(context_2d_result(v, canvas).1, canvas).0 == context_2d_result(v, canvas).0,
        context_2d_result(context_2d_result(v, canvas).1, canvas).1.next_context == context_2d_result(
            v,
            canvas,
        ).1.next_context,
        context_2d_result(context_2d_result(v, canvas).1, canvas).1.canvases == context_2d_result(v, canvas).1.canvases,
{
}

/// A recorded command becomes the last command of the context it names.
pub proof fn lemma_record_appends(s: Seq<(u64, ContextView)>, c: CommandView)
    requires
        ids_sorted(s),
        id_map(s).dom().contains(command_context(c).0),
    ensures
        id_map(with_command(s, command_context(c).0, c)).dom().contains(command_context(c).0),
        id_map(with_command(s, command_context(c).0, c))[command_context(c).0].commands == id_map(
            s,
        )[command_context(c).0].commands.push(c),
{
    let k = command_context(c).0;
    let t = with_command(s, k, c);
    lemma_entry_of(s, t, k);
}

/// After a canvas is resized, its data URL counts no command.
pub proof fn lemma_resize_clears_count(v: CanvasHostView, canvas: CanvasElementId, width: u32, height: u32)
    requires
        ids_sorted(v.contexts),
        v.canvases.dom().contains(canvas.0),
    ensures
        canvas_command_count(resized(v, canvas, width, height), canvas) == 0,
{
    let r = resized(v, canvas, width, height);
    let ids = v.canvases[canvas.0].contexts;
    assert(r.canvases[canvas.0].contexts == ids);
    let m = context_map(r);
    assert forall|q: int| 0 <= q < ids.len() && m.dom().contains(#[trigger] ids[q].0) implies m[ids[q].0].commands.len()
        == 0 by {
        let k = ids[q].0;
        assert(CanvasContextId(k) == ids[q]);
        assert(ids.contains(CanvasContextId(k)));
        assert(id_map(v.contexts).dom().contains(k)) by {
            let i = choose|i: int| 0 <= i < r.contexts.len() && #[trigger] r.contexts[i].0 == k;
            assert(v.contexts[i].0 == k);
        }
        lemma_entry_of(v.contexts, r.contexts, k);
    }
    lemma_commands_on_zero(m, ids);
}

} // verus!
