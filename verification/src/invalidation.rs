//! Style/layout/paint invalidation planning: script-pipeline reflow
//! requests, CSSOM mutations and DOM snapshots become invalidation inputs,
//! which are coalesced into plans the renderer can act on.
//!
//! Paint rectangles are measured in floating point by the renderer; here a
//! rectangle is named by a reference the renderer hands out, and the dirty
//! rectangles of a plan list those references (their union is the region
//! the renderer repaints).

use crate::dom::{DomNodeRef, DomNodeSnapshot, DomNodeType};
use crate::cssom::{CssStyleMutation, MutationView, StyleInvalidationKind, mutation_views};
use crate::event_loop::{sat_add_n, sat_inc};
use crate::keyed::{keys_sorted, sorted_list, table_insert, table_key_list, table_map};
use crate::security::{clone_strings, string_views};
use crate::script_pipeline::{
    DirtyFlag, DirtyFlags, FailureView, HookCall, ReflowRequest, ReflowView, ScriptDescriptor,
    ScriptExecutionFailure, ScriptPipelineHooks, failure_views,
};
use crate::text::{concat, owned, eq_ignore_case};
use vstd::prelude::*;

verus! {

broadcast use vstd::string::group_string_axioms;

// ---------------------------------------------------------------------------
// Kinds
// ---------------------------------------------------------------------------

/// Invalidation source.
#[derive(Debug, Clone, Copy, PartialEq, Eq, PartialOrd, Ord, Structural)]
pub enum InvalidationSource {
    /// DOM tree mutation.
    Dom,
    /// CSSOM or inline style mutation.
    Cssom,
    /// Script pipeline lifecycle/reflow request.
    ScriptPipeline,
    /// Resource load affected layout/paint.
    Resource,
    /// Viewport resize.
    Viewport,
    /// Form/control state changed.
    Form,
    /// Media/canvas visual state changed.
    VisualRuntime,
}

/// Invalidation priority, from `Low` up to `Critical`.
#[derive(Debug, Clone, Copy, PartialEq, Eq, PartialOrd, Ord, Structural)]
pub enum InvalidationPriority {
    /// Can be delayed.
    Low,
    /// Normal invalidation.
    Normal,
    /// Needed before next paint.
    High,
    /// Must be flushed immediately.
    Critical,
}

impl Default for InvalidationPriority {
    fn default() -> (p: Self)
        ensures
            p == InvalidationPriority::Normal,
    {
        InvalidationPriority::Normal
    }
}

/// Invalidation scope.
#[derive(Debug, Clone, Copy, PartialEq, Eq, PartialOrd, Ord, Structural)]
pub enum InvalidationScope {
    /// Whole document.
    Document,
    /// Viewport-level.
    Viewport,
    /// Subtree rooted at a DOM node.
    Subtree(DomNodeRef),
    /// Single node.
    Node(DomNodeRef),
    /// Unknown or detached scope.
    Unknown,
}

/// Normalized invalidation node.
#[derive(Debug, Clone, Copy, PartialEq, Eq, PartialOrd, Ord, Hash, Structural)]
pub struct InvalidationNode {
    /// DOM node id.
    pub dom_node: DomNodeRef,
}

/// A paint rectangle measured by the renderer, named by the reference the
/// renderer handed out for it.
#[derive(Debug, Clone, Copy, PartialEq, Eq, PartialOrd, Ord, Hash, Structural)]
pub struct InvalidationRectRef(pub u64);

/// A dirty region of a plan.
#[derive(Debug, Clone, Copy, PartialEq, Eq, Structural)]
pub enum DirtyRect {
    /// The whole viewport.
    Viewport,
    /// A measured rectangle.
    Rect(InvalidationRectRef),
}

/// Style invalidation kind, from no work up to a full cascade.
#[derive(Debug, Clone, Copy, PartialEq, Eq, PartialOrd, Ord, Structural)]
pub enum StyleInvalidationKindLite {
    /// No style work.
    Nothing,
    /// Recompute inline style only.
    Inline,
    /// Re-match selectors for subtree.
    SelectorMatch,
    /// Full cascade recomputation.
    Cascade,
}

/// Layout invalidation kind, from no work up to the whole viewport.
#[derive(Debug, Clone, Copy, PartialEq, Eq, PartialOrd, Ord, Structural)]
pub enum LayoutInvalidationKind {
    /// No layout work.
    Nothing,
    /// Measure text or intrinsic size.
    IntrinsicSize,
    /// Reflow a node.
    Node,
    /// Reflow subtree.
    Subtree,
    /// Rebuild layout tree.
    Tree,
    /// Full viewport layout.
    Viewport,
}

/// Paint invalidation kind, from no work up to the whole viewport.
#[derive(Debug, Clone, Copy, PartialEq, Eq, PartialOrd, Ord, Structural)]
pub enum PaintInvalidationKind {
    /// No paint work.
    Nothing,
    /// Repaint a node.
    Node,
    /// Repaint stacking context/subtree.
    Subtree,
    /// Rebuild PaintPlan.
    PaintPlan,
    /// Full viewport repaint.
    Viewport,
}

/// Renderer rebuild hint, from nothing up to the full pipeline.
#[derive(Debug, Clone, Copy, PartialEq, Eq, PartialOrd, Ord, Structural)]
pub enum RebuildHint {
    /// No rebuild needed.
    Nothing,
    /// Style recomputation only.
    StyleOnly,
    /// Layout tree update.
    LayoutTree,
    /// PaintPlan regeneration.
    PaintPlan,
    /// Full render pipeline.
    FullPipeline,
}

impl Default for RebuildHint {
    fn default() -> (h: Self)
        ensures
            h == RebuildHint::Nothing,
    {
        RebuildHint::Nothing
    }
}

/// Position of a priority in its order.
pub open spec fn priority_level(p: InvalidationPriority) -> nat {
    match p {
        InvalidationPriority::Low => 0,
        InvalidationPriority::Normal => 1,
        InvalidationPriority::High => 2,
        InvalidationPriority::Critical => 3,
    }
}

/// Position of a style kind in its order.
pub open spec fn style_level(k: StyleInvalidationKindLite) -> nat {
    match k {
        StyleInvalidationKindLite::Nothing => 0,
        StyleInvalidationKindLite::Inline => 1,
        StyleInvalidationKindLite::SelectorMatch => 2,
        StyleInvalidationKindLite::Cascade => 3,
    }
}

/// Position of a layout kind in its order.
pub open spec fn layout_level(k: LayoutInvalidationKind) -> nat {
    match k {
        LayoutInvalidationKind::Nothing => 0,
        LayoutInvalidationKind::IntrinsicSize => 1,
        LayoutInvalidationKind::Node => 2,
        LayoutInvalidationKind::Subtree => 3,
        LayoutInvalidationKind::Tree => 4,
        LayoutInvalidationKind::Viewport => 5,
    }
}

/// Position of a paint kind in its order.
pub open spec fn paint_level(k: PaintInvalidationKind) -> nat {
    match k {
        PaintInvalidationKind::Nothing => 0,
        PaintInvalidationKind::Node => 1,
        PaintInvalidationKind::Subtree => 2,
        PaintInvalidationKind::PaintPlan => 3,
        PaintInvalidationKind::Viewport => 4,
    }
}

/// Position of a rebuild hint in its order.
pub open spec fn rebuild_level(h: RebuildHint) -> nat {
    match h {
        RebuildHint::Nothing => 0,
        RebuildHint::StyleOnly => 1,
        RebuildHint::LayoutTree => 2,
        RebuildHint::PaintPlan => 3,
        RebuildHint::FullPipeline => 4,
    }
}

/// The higher of two priorities.
pub open spec fn max_priority(a: InvalidationPriority, b: InvalidationPriority) -> InvalidationPriority {
    if priority_level(a) >= priority_level(b) { a } else { b }
}

/// The higher of two style kinds.
pub open spec fn max_style(a: StyleInvalidationKindLite, b: StyleInvalidationKindLite) -> StyleInvalidationKindLite {
    if style_level(a) >= style_level(b) { a } else { b }
}

/// The higher of two layout kinds.
pub open spec fn max_layout(a: LayoutInvalidationKind, b: LayoutInvalidationKind) -> LayoutInvalidationKind {
    if layout_level(a) >= layout_level(b) { a } else { b }
}

/// The higher of two paint kinds.
pub open spec fn max_paint(a: PaintInvalidationKind, b: PaintInvalidationKind) -> PaintInvalidationKind {
    if paint_level(a) >= paint_level(b) { a } else { b }
}

/// The higher of two rebuild hints.
pub open spec fn max_rebuild(a: RebuildHint, b: RebuildHint) -> RebuildHint {
    if rebuild_level(a) >= rebuild_level(b) { a } else { b }
}

fn priority_rank(p: InvalidationPriority) -> (r: u8)
    ensures
        r == priority_level(p),
{
    match p {
        InvalidationPriority::Low => 0,
        InvalidationPriority::Normal => 1,
        InvalidationPriority::High => 2,
        InvalidationPriority::Critical => 3,
    }
}

fn style_rank(k: StyleInvalidationKindLite) -> (r: u8)
    ensures
        r == style_level(k),
{
    match k {
        StyleInvalidationKindLite::Nothing => 0,
        StyleInvalidationKindLite::Inline => 1,
        StyleInvalidationKindLite::SelectorMatch => 2,
        StyleInvalidationKindLite::Cascade => 3,
    }
}

fn layout_rank(k: LayoutInvalidationKind) -> (r: u8)
    ensures
        r == layout_level(k),
{
    match k {
        LayoutInvalidationKind::Nothing => 0,
        LayoutInvalidationKind::IntrinsicSize => 1,
        LayoutInvalidationKind::Node => 2,
        LayoutInvalidationKind::Subtree => 3,
        LayoutInvalidationKind::Tree => 4,
        LayoutInvalidationKind::Viewport => 5,
    }
}

fn paint_rank(k: PaintInvalidationKind) -> (r: u8)
    ensures
        r == paint_level(k),
{
    match k {
        PaintInvalidationKind::Nothing => 0,
        PaintInvalidationKind::Node => 1,
        PaintInvalidationKind::Subtree => 2,
        PaintInvalidationKind::PaintPlan => 3,
        PaintInvalidationKind::Viewport => 4,
    }
}

fn rebuild_rank(h: RebuildHint) -> (r: u8)
    ensures
        r == rebuild_level(h),
{
    match h {
        RebuildHint::Nothing => 0,
        RebuildHint::StyleOnly => 1,
        RebuildHint::LayoutTree => 2,
        RebuildHint::PaintPlan => 3,
        RebuildHint::FullPipeline => 4,
    }
}

fn higher_priority(a: InvalidationPriority, b: InvalidationPriority) -> (r: InvalidationPriority)
    ensures
        r == max_priority(a, b),
{
    if priority_rank(a) >= priority_rank(b) { a } else { b }
}

fn higher_rebuild(a: RebuildHint, b: RebuildHint) -> (r: RebuildHint)
    ensures
        r == max_rebuild(a, b),
{
    if rebuild_rank(a) >= rebuild_rank(b) { a } else { b }
}

// ---------------------------------------------------------------------------
// Impact
// ---------------------------------------------------------------------------

/// Invalidation impact.
#[derive(Debug, Clone, Copy, PartialEq, Eq, Structural)]
pub struct InvalidationImpact {
    /// Style kind.
    pub style: StyleInvalidationKindLite,
    /// Layout kind.
    pub layout: LayoutInvalidationKind,
    /// Paint kind.
    pub paint: PaintInvalidationKind,
    /// Rebuild hint.
    pub rebuild: RebuildHint,
}

/// No work at all.
pub open spec fn no_impact() -> InvalidationImpact {
    InvalidationImpact {
        style: StyleInvalidationKindLite::Nothing,
        layout: LayoutInvalidationKind::Nothing,
        paint: PaintInvalidationKind::Nothing,
        rebuild: RebuildHint::Nothing,
    }
}

/// Every part of the render pipeline, for the whole document.
pub open spec fn full_impact() -> InvalidationImpact {
    InvalidationImpact {
        style: StyleInvalidationKindLite::Cascade,
        layout: LayoutInvalidationKind::Viewport,
        paint: PaintInvalidationKind::Viewport,
        rebuild: RebuildHint::FullPipeline,
    }
}

/// Two impacts merged: each part the higher of the two.
pub open spec fn merged(a: InvalidationImpact, b: InvalidationImpact) -> InvalidationImpact {
    InvalidationImpact {
        style: max_style(a.style, b.style),
        layout: max_layout(a.layout, b.layout),
        paint: max_paint(a.paint, b.paint),
        rebuild: max_rebuild(a.rebuild, b.rebuild),
    }
}

impl InvalidationImpact {
    /// No-op impact.
    pub fn none() -> (i: Self)
        ensures
            i == no_impact(),
    {
        InvalidationImpact {
            style: StyleInvalidationKindLite::Nothing,
            layout: LayoutInvalidationKind::Nothing,
            paint: PaintInvalidationKind::Nothing,
            rebuild: RebuildHint::Nothing,
        }
    }

    /// Paint only.
    pub fn paint() -> (i: Self)
        ensures
            i == (InvalidationImpact {
                style: StyleInvalidationKindLite::Nothing,
                layout: LayoutInvalidationKind::Nothing,
                paint: PaintInvalidationKind::Node,
                rebuild: RebuildHint::PaintPlan,
            }),
    {
        InvalidationImpact {
            style: StyleInvalidationKindLite::Nothing,
            layout: LayoutInvalidationKind::Nothing,
            paint: PaintInvalidationKind::Node,
            rebuild: RebuildHint::PaintPlan,
        }
    }

    /// Style and paint.
    pub fn style_paint() -> (i: Self)
        ensures
            i == (InvalidationImpact {
                style: StyleInvalidationKindLite::Inline,
                layout: LayoutInvalidationKind::Nothing,
                paint: PaintInvalidationKind::Node,
                rebuild: RebuildHint::PaintPlan,
            }),
    {
        InvalidationImpact {
            style: StyleInvalidationKindLite::Inline,
            layout: LayoutInvalidationKind::Nothing,
            paint: PaintInvalidationKind::Node,
            rebuild: RebuildHint::PaintPlan,
        }
    }

    /// Layout and paint.
    pub fn layout_paint() -> (i: Self)
        ensures
            i == (InvalidationImpact {
                style: StyleInvalidationKindLite::Inline,
                layout: LayoutInvalidationKind::Node,
                paint: PaintInvalidationKind::Subtree,
                rebuild: RebuildHint::LayoutTree,
            }),
    {
        InvalidationImpact {
            style: StyleInvalidationKindLite::Inline,
            layout: LayoutInvalidationKind::Node,
            paint: PaintInvalidationKind::Subtree,
            rebuild: RebuildHint::LayoutTree,
        }
    }

    /// Full document pipeline.
    pub fn full_pipeline() -> (i: Self)
        ensures
            i == full_impact(),
    {
        InvalidationImpact {
            style: StyleInvalidationKindLite::Cascade,
            layout: LayoutInvalidationKind::Viewport,
            paint: PaintInvalidationKind::Viewport,
            rebuild: RebuildHint::FullPipeline,
        }
    }

    /// Merges two impacts: each part becomes the higher of the two.
    pub fn merge(self, other: Self) -> (i: Self)
        ensures
            i == merged(self, other),
    {
        let style = if style_rank(self.style) >= style_rank(other.style) {
            self.style
        } else {
            other.style
        };
        let layout = if layout_rank(self.layout) >= layout_rank(other.layout) {
            self.layout
        } else {
            other.layout
        };
        let paint = if paint_rank(self.paint) >= paint_rank(other.paint) {
            self.paint
        } else {
            other.paint
        };
        InvalidationImpact { style, layout, paint, rebuild: higher_rebuild(self.rebuild, other.rebuild) }
    }
}

/// Merging is commutative.
pub proof fn lemma_merge_commutative(a: InvalidationImpact, b: InvalidationImpact)
    ensures
        merged(a, b) == merged(b, a),
{
}

/// Merging is associative.
pub proof fn lemma_merge_associative(a: InvalidationImpact, b: InvalidationImpact, c: InvalidationImpact)
    ensures
        merged(merged(a, b), c) == merged(a, merged(b, c)),
{
}

/// Merging an impact with itself changes nothing.
pub proof fn lemma_merge_idempotent(a: InvalidationImpact)
    ensures
        merged(a, a) == a,
{
}

/// The no-op impact is neutral for merging.
pub proof fn lemma_merge_none_identity(a: InvalidationImpact)
    ensures
        merged(no_impact(), a) == a,
        merged(a, no_impact()) == a,
{
}

/// The full-pipeline impact absorbs every other impact.
pub proof fn lemma_merge_full_absorbs(a: InvalidationImpact)
    ensures
        merged(full_impact(), a) == full_impact(),
        merged(a, full_impact()) == full_impact(),
{
}

/// A merge is at least as much work as either side, in every part.
pub proof fn lemma_merge_upper_bound(a: InvalidationImpact, b: InvalidationImpact)
    ensures
        style_level(a.style) <= style_level(merged(a, b).style),
        layout_level(a.layout) <= layout_level(merged(a, b).layout),
        paint_level(a.paint) <= paint_level(merged(a, b).paint),
        rebuild_level(a.rebuild) <= rebuild_level(merged(a, b).rebuild),
        style_level(b.style) <= style_level(merged(a, b).style),
        layout_level(b.layout) <= layout_level(merged(a, b).layout),
        paint_level(b.paint) <= paint_level(merged(a, b).paint),
        rebuild_level(b.rebuild) <= rebuild_level(merged(a, b).rebuild),
{
}

// ---------------------------------------------------------------------------
// Inputs, batches, plans
// ---------------------------------------------------------------------------

/// Invalidation reason.
#[derive(Debug, Clone, PartialEq, Eq)]
pub struct InvalidationReason {
    /// Reason code.
    pub code: String,
    /// Human-readable detail.
    pub detail: String,
}

impl InvalidationReason {
    /// Creates a reason.
    pub fn new(code: &str, detail: &str) -> (r: Self)
        ensures
            r.code@ == code@,
            r.detail@ == detail@,
    {
        InvalidationReason { code: owned(code), detail: owned(detail) }
    }
}

/// Invalidation input.
#[derive(Debug, Clone, PartialEq, Eq)]
pub struct InvalidationInput {
    /// Source.
    pub source: InvalidationSource,
    /// Priority.
    pub priority: InvalidationPriority,
    /// Scope.
    pub scope: InvalidationScope,
    /// Impact.
    pub impact: InvalidationImpact,
    /// Paint rectangle, if known.
    pub rect: Option<InvalidationRectRef>,
    /// Reason.
    pub reason: InvalidationReason,
}

/// Model of an input.
pub struct InputView {
    pub source: InvalidationSource,
    pub priority: InvalidationPriority,
    pub scope: InvalidationScope,
    pub impact: InvalidationImpact,
    pub rect: Option<InvalidationRectRef>,
    pub code: Seq<char>,
    pub detail: Seq<char>,
}

impl View for InvalidationInput {
    type V = InputView;

    open spec fn view(&self) -> InputView {
        InputView {
            source: self.source,
            priority: self.priority,
            scope: self.scope,
            impact: self.impact,
            rect: self.rect,
            code: self.reason.code@,
            detail: self.reason.detail@,
        }
    }
}

/// Views of a list of inputs.
pub open spec fn input_views(s: Seq<InvalidationInput>) -> Seq<InputView> {
    s.map_values(|i: InvalidationInput| i@)
}

impl InvalidationInput {
    fn copy(&self) -> (c: Self)
        ensures
            c@ == self@,
    {
        InvalidationInput {
            source: self.source,
            priority: self.priority,
            scope: self.scope,
            impact: self.impact,
            rect: self.rect,
            reason: InvalidationReason { code: self.reason.code.clone(), detail: self.reason.detail.clone() },
        }
    }
}

fn copy_inputs(v: &[InvalidationInput]) -> (r: Vec<InvalidationInput>)
    ensures
        input_views(r@) == input_views(v@),
{
    let mut r: Vec<InvalidationInput> = Vec::new();
    let mut i: usize = 0;
    while i < v.len()
        invariant
            i <= v@.len(),
            r@.len() == i,
            forall|k: int| 0 <= k < i ==> (#[trigger] r@[k])@ == v@[k]@,
        decreases v.len() - i,
    {
        r.push(v[i].copy());
        i = i + 1;
    }
    assert(input_views(r@) =~= input_views(v@));
    r
}

/// Coalesced invalidation batch.
#[derive(Debug, Clone, PartialEq, Eq)]
pub struct InvalidationBatch {
    /// Inputs in arrival order.
    pub inputs: Vec<InvalidationInput>,
    /// Coalesced scope.
    pub scope: Option<InvalidationScope>,
    /// Coalesced impact.
    pub impact: Option<InvalidationImpact>,
    /// The paint rectangles of the inputs, in arrival order; the coalesced
    /// paint region is their union.
    pub rects: Vec<InvalidationRectRef>,
    /// Highest priority.
    pub priority: Option<InvalidationPriority>,
    /// Reason codes, sorted, each once.
    pub reasons: Vec<String>,
}

/// Model of a batch.
pub struct BatchView {
    pub inputs: Seq<InputView>,
    pub scope: Option<InvalidationScope>,
    pub impact: Option<InvalidationImpact>,
    pub rects: Seq<InvalidationRectRef>,
    pub priority: Option<InvalidationPriority>,
    pub reasons: Seq<Seq<char>>,
}

impl View for InvalidationBatch {
    type V = BatchView;

    open spec fn view(&self) -> BatchView {
        BatchView {
            inputs: input_views(self.inputs@),
            scope: self.scope,
            impact: self.impact,
            rects: self.rects@,
            priority: self.priority,
            reasons: string_views(self.reasons@),
        }
    }
}

impl Default for InvalidationBatch {
    fn default() -> (b: Self)
        ensures
            b@.inputs.len() == 0,
            b@.scope is None,
            b@.impact is None,
            b@.rects.len() == 0,
            b@.priority is None,
            b@.reasons.len() == 0,
    {
        InvalidationBatch {
            inputs: Vec::new(),
            scope: None,
            impact: None,
            rects: Vec::new(),
            priority: None,
            reasons: Vec::new(),
        }
    }
}

fn copy_rects(v: &Vec<InvalidationRectRef>) -> (r: Vec<InvalidationRectRef>)
    ensures
        r@ == v@,
{
    let mut r: Vec<InvalidationRectRef> = Vec::new();
    let mut i: usize = 0;
    while i < v.len()
        invariant
            i <= v@.len(),
            r@ == v@.take(i as int),
        decreases v.len() - i,
    {
        r.push(v[i]);
        i = i + 1;
        assert(r@ =~= v@.take(i as int));
    }
    assert(v@.take(v.len() as int) =~= v@);
    r
}

impl InvalidationBatch {
    /// Returns true if no inputs.
    pub fn is_empty(&self) -> (r: bool)
        ensures
            r == (self@.inputs.len() == 0),
    {
        self.inputs.len() == 0
    }

    fn copy(&self) -> (c: Self)
        ensures
            c@ == self@,
    {
        InvalidationBatch {
            inputs: copy_inputs(self.inputs.as_slice()),
            scope: self.scope,
            impact: self.impact,
            rects: copy_rects(&self.rects),
            priority: self.priority,
            reasons: clone_strings(&self.reasons),
        }
    }
}

/// Final invalidation plan consumed by the renderer.
#[derive(Debug, Clone, PartialEq, Eq)]
pub struct InvalidationPlan {
    /// Inputs processed into the plan.
    pub input_count: usize,
    /// Nodes needing style recalc.
    pub style_nodes: Vec<DomNodeRef>,
    /// Nodes needing layout.
    pub layout_nodes: Vec<DomNodeRef>,
    /// Nodes needing paint.
    pub paint_nodes: Vec<DomNodeRef>,
    /// Whether entire document must be restyled.
    pub restyle_document: bool,
    /// Whether entire layout tree must be rebuilt.
    pub rebuild_layout_tree: bool,
    /// Whether PaintPlan must be regenerated.
    pub rebuild_paint_plan: bool,
    /// Whether full viewport paint is required.
    pub full_viewport_paint: bool,
    /// Dirty regions.
    pub dirty_rects: Vec<DirtyRect>,
    /// Highest priority.
    pub priority: InvalidationPriority,
    /// Highest rebuild hint.
    pub rebuild_hint: RebuildHint,
    /// Reason summary.
    pub reasons: Vec<String>,
}

/// Model of a plan.
pub struct PlanView {
    pub input_count: nat,
    pub style_nodes: Seq<DomNodeRef>,
    pub layout_nodes: Seq<DomNodeRef>,
    pub paint_nodes: Seq<DomNodeRef>,
    pub restyle_document: bool,
    pub rebuild_layout_tree: bool,
    pub rebuild_paint_plan: bool,
    pub full_viewport_paint: bool,
    pub dirty_rects: Seq<DirtyRect>,
    pub priority: InvalidationPriority,
    pub rebuild_hint: RebuildHint,
    pub reasons: Seq<Seq<char>>,
}

impl View for InvalidationPlan {
    type V = PlanView;

    open spec fn view(&self) -> PlanView {
        PlanView {
            input_count: self.input_count as nat,
            style_nodes: self.style_nodes@,
            layout_nodes: self.layout_nodes@,
            paint_nodes: self.paint_nodes@,
            restyle_document: self.restyle_document,
            rebuild_layout_tree: self.rebuild_layout_tree,
            rebuild_paint_plan: self.rebuild_paint_plan,
            full_viewport_paint: self.full_viewport_paint,
            dirty_rects: self.dirty_rects@,
            priority: self.priority,
            rebuild_hint: self.rebuild_hint,
            reasons: string_views(self.reasons@),
        }
    }
}

/// The plan for an empty batch: nothing to do, low priority.
pub open spec fn empty_plan() -> PlanView {
    PlanView {
        input_count: 0,
        style_nodes: Seq::empty(),
        layout_nodes: Seq::empty(),
        paint_nodes: Seq::empty(),
        restyle_document: false,
        rebuild_layout_tree: false,
        rebuild_paint_plan: false,
        full_viewport_paint: false,
        dirty_rects: Seq::empty(),
        priority: InvalidationPriority::Low,
        rebuild_hint: RebuildHint::Nothing,
        reasons: Seq::empty(),
    }
}

fn copy_nodes(v: &Vec<DomNodeRef>) -> (r: Vec<DomNodeRef>)
    ensures
        r@ == v@,
{
    let mut r: Vec<DomNodeRef> = Vec::new();
    let mut i: usize = 0;
    while i < v.len()
        invariant
            i <= v@.len(),
            r@ == v@.take(i as int),
        decreases v.len() - i,
    {
        r.push(v[i]);
        i = i + 1;
        assert(r@ =~= v@.take(i as int));
    }
    assert(v@.take(v.len() as int) =~= v@);
    r
}

fn copy_dirty(v: &Vec<DirtyRect>) -> (r: Vec<DirtyRect>)
    ensures
        r@ == v@,
{
    let mut r: Vec<DirtyRect> = Vec::new();
    let mut i: usize = 0;
    while i < v.len()
        invariant
            i <= v@.len(),
            r@ == v@.take(i as int),
        decreases v.len() - i,
    {
        r.push(v[i]);
        i = i + 1;
        assert(r@ =~= v@.take(i as int));
    }
    assert(v@.take(v.len() as int) =~= v@);
    r
}

impl Default for InvalidationPlan {
    fn default() -> (p: Self)
        ensures
            p@ == (PlanView { priority: InvalidationPriority::Normal, ..empty_plan() }),
    {
        let p = InvalidationPlan {
            input_count: 0,
            style_nodes: Vec::new(),
            layout_nodes: Vec::new(),
            paint_nodes: Vec::new(),
            restyle_document: false,
            rebuild_layout_tree: false,
            rebuild_paint_plan: false,
            full_viewport_paint: false,
            dirty_rects: Vec::new(),
            priority: InvalidationPriority::Normal,
            rebuild_hint: RebuildHint::Nothing,
            reasons: Vec::new(),
        };
        assert(p@.reasons =~= Seq::<Seq<char>>::empty());
        p
    }
}

impl InvalidationPlan {
    fn copy(&self) -> (c: Self)
        ensures
            c@ == self@,
    {
        InvalidationPlan {
            input_count: self.input_count,
            style_nodes: copy_nodes(&self.style_nodes),
            layout_nodes: copy_nodes(&self.layout_nodes),
            paint_nodes: copy_nodes(&self.paint_nodes),
            restyle_document: self.restyle_document,
            rebuild_layout_tree: self.rebuild_layout_tree,
            rebuild_paint_plan: self.rebuild_paint_plan,
            full_viewport_paint: self.full_viewport_paint,
            dirty_rects: copy_dirty(&self.dirty_rects),
            priority: self.priority,
            rebuild_hint: self.rebuild_hint,
            reasons: clone_strings(&self.reasons),
        }
    }
}

/// Invalidation engine metrics.
#[derive(Debug, Clone, Copy, PartialEq, Eq, Structural)]
pub struct InvalidationMetrics {
    /// Inputs submitted.
    pub inputs_submitted: u64,
    /// Inputs coalesced.
    pub inputs_coalesced: u64,
    /// Plans produced.
    pub plans_produced: u64,
    /// Reflow requests consumed.
    pub reflow_requests_consumed: u64,
    /// CSSOM mutations consumed.
    pub cssom_mutations_consumed: u64,
    /// DOM snapshots consumed.
    pub dom_snapshots_consumed: u64,
    /// Full pipeline plans.
    pub full_pipeline_plans: u64,
    /// Layout tree rebuild plans.
    pub layout_tree_rebuild_plans: u64,
    /// PaintPlan rebuild plans.
    pub paint_plan_rebuild_plans: u64,
    /// Viewport paint plans.
    pub viewport_paint_plans: u64,
}

/// All counters zero.
pub open spec fn zero_invalidation_metrics() -> InvalidationMetrics {
    InvalidationMetrics {
        inputs_submitted: 0,
        inputs_coalesced: 0,
        plans_produced: 0,
        reflow_requests_consumed: 0,
        cssom_mutations_consumed: 0,
        dom_snapshots_consumed: 0,
        full_pipeline_plans: 0,
        layout_tree_rebuild_plans: 0,
        paint_plan_rebuild_plans: 0,
        viewport_paint_plans: 0,
    }
}

impl Default for InvalidationMetrics {
    fn default() -> (m: Self)
        ensures
            m == zero_invalidation_metrics(),
    {
        InvalidationMetrics {
            inputs_submitted: 0,
            inputs_coalesced: 0,
            plans_produced: 0,
            reflow_requests_consumed: 0,
            cssom_mutations_consumed: 0,
            dom_snapshots_consumed: 0,
            full_pipeline_plans: 0,
            layout_tree_rebuild_plans: 0,
            paint_plan_rebuild_plans: 0,
            viewport_paint_plans: 0,
        }
    }
}

/// Invalidation engine config.
#[derive(Debug, Clone, Copy, PartialEq, Eq, Structural)]
pub struct InvalidationConfig {
    /// Coalesce document-level inputs aggressively.
    pub coalesce_document_scope: bool,
    /// Convert unknown scope into document scope.
    pub unknown_scope_is_document: bool,
    /// Always rebuild PaintPlan after layout work.
    pub paint_after_layout: bool,
    /// Always restyle before layout tree rebuild.
    pub restyle_before_layout: bool,
    /// Maximum retained events.
    pub max_events: usize,
}

/// The default configuration.
pub open spec fn default_invalidation_config() -> InvalidationConfig {
    InvalidationConfig {
        coalesce_document_scope: true,
        unknown_scope_is_document: true,
        paint_after_layout: true,
        restyle_before_layout: true,
        max_events: 512,
    }
}

impl Default for InvalidationConfig {
    fn default() -> (c: Self)
        ensures
            c == default_invalidation_config(),
    {
        InvalidationConfig {
            coalesce_document_scope: true,
            unknown_scope_is_document: true,
            paint_after_layout: true,
            restyle_before_layout: true,
            max_events: 512,
        }
    }
}

// ---------------------------------------------------------------------------
// Coalescing
// ---------------------------------------------------------------------------

/// An unknown scope counts as the document when the config says so.
pub open spec fn normalized_scope(c: InvalidationConfig, s: InvalidationScope) -> InvalidationScope {
    if c.unknown_scope_is_document && s == InvalidationScope::Unknown {
        InvalidationScope::Document
    } else {
        s
    }
}

/// The scope covering two scopes: equal scopes stay; the document absorbs
/// everything when document coalescing is on (otherwise the earlier scope
/// stays); the viewport absorbs the rest; a node merges into its own
/// subtree; anything else widens to the document.
pub open spec fn merged_scope(c: InvalidationConfig, existing: InvalidationScope, next: InvalidationScope) -> InvalidationScope {
    if existing == next {
        existing
    } else if existing == InvalidationScope::Document || next == InvalidationScope::Document {
        if c.coalesce_document_scope {
            InvalidationScope::Document
        } else {
            existing
        }
    } else if existing == InvalidationScope::Viewport || next == InvalidationScope::Viewport {
        InvalidationScope::Viewport
    } else {
        match existing {
            InvalidationScope::Subtree(a) => match next {
                InvalidationScope::Node(b) => if a == b {
                    existing
                } else {
                    InvalidationScope::Document
                },
                _ => InvalidationScope::Document,
            },
            InvalidationScope::Node(a) => match next {
                InvalidationScope::Subtree(b) => if a == b {
                    next
                } else {
                    InvalidationScope::Document
                },
                _ => InvalidationScope::Document,
            },
            _ => InvalidationScope::Document,
        }
    }
}

fn normalize_scope(c: &InvalidationConfig, s: InvalidationScope) -> (r: InvalidationScope)
    ensures
        r == normalized_scope(*c, s),
{
    if c.unknown_scope_is_document && s == InvalidationScope::Unknown {
        InvalidationScope::Document
    } else {
        s
    }
}

fn merge_scope(c: &InvalidationConfig, existing: InvalidationScope, next: InvalidationScope) -> (r: InvalidationScope)
    ensures
        r == merged_scope(*c, existing, next),
{
    if existing == next {
        return existing;
    }
    if existing == InvalidationScope::Document || next == InvalidationScope::Document {
        return if c.coalesce_document_scope {
            InvalidationScope::Document
        } else {
            existing
        };
    }
    if existing == InvalidationScope::Viewport || next == InvalidationScope::Viewport {
        return InvalidationScope::Viewport;
    }
    match existing {
        InvalidationScope::Subtree(a) => match next {
            InvalidationScope::Node(b) => if a == b {
                existing
            } else {
                InvalidationScope::Document
            },
            _ => InvalidationScope::Document,
        },
        InvalidationScope::Node(a) => match next {
            InvalidationScope::Subtree(b) => if a == b {
                next
            } else {
                InvalidationScope::Document
            },
            _ => InvalidationScope::Document,
        },
        _ => InvalidationScope::Document,
    }
}

/// The impacts of the inputs merged, in arrival order, from no work.
pub open spec fn fold_impact(s: Seq<InputView>) -> InvalidationImpact
    decreases s.len(),
{
    if s.len() == 0 {
        no_impact()
    } else {
        merged(fold_impact(s.drop_last()), s.last().impact)
    }
}

/// The highest priority of the inputs, `Low` when there are none.
pub open spec fn fold_priority(s: Seq<InputView>) -> InvalidationPriority
    decreases s.len(),
{
    if s.len() == 0 {
        InvalidationPriority::Low
    } else {
        max_priority(fold_priority(s.drop_last()), s.last().priority)
    }
}

/// The scopes of the inputs merged in arrival order; none without inputs.
pub open spec fn fold_scope(c: InvalidationConfig, s: Seq<InputView>) -> Option<InvalidationScope>
    decreases s.len(),
{
    if s.len() == 0 {
        None
    } else {
        let n = normalized_scope(c, s.last().scope);
        match fold_scope(c, s.drop_last()) {
            None => Some(n),
            Some(e) => Some(merged_scope(c, e, n)),
        }
    }
}

/// The paint rectangles of the inputs, in arrival order.
pub open spec fn input_rects(s: Seq<InputView>) -> Seq<InvalidationRectRef>
    decreases s.len(),
{
    if s.len() == 0 {
        Seq::empty()
    } else {
        match s.last().rect {
            Some(r) => input_rects(s.drop_last()).push(r),
            None => input_rects(s.drop_last()),
        }
    }
}

/// The reason codes of the inputs.
pub open spec fn reason_codes(s: Seq<InputView>) -> Set<Seq<char>> {
    Set::new(|c: Seq<char>| exists|i: int| 0 <= i < s.len() && #[trigger] s[i].code == c)
}

/// Invalidation coalescer.
#[derive(Debug, Clone)]
pub struct InvalidationCoalescer {
    config: InvalidationConfig,
}

impl View for InvalidationCoalescer {
    type V = InvalidationConfig;

    closed spec fn view(&self) -> InvalidationConfig {
        self.config
    }
}

impl InvalidationCoalescer {
    /// Creates a coalescer.
    pub fn new(config: InvalidationConfig) -> (c: Self)
        ensures
            c@ == config,
    {
        InvalidationCoalescer { config }
    }

    /// Coalesces inputs into one batch.
    pub fn coalesce(&self, inputs: &[InvalidationInput]) -> (b: InvalidationBatch)
        ensures
            b@ == batch_of(self@, input_views(inputs@)),
    {
        let ghost s = input_views(inputs@);
        let mut impact = InvalidationImpact::none();
        let mut priority = InvalidationPriority::Low;
        let mut scope: Option<InvalidationScope> = None;
        let mut rects: Vec<InvalidationRectRef> = Vec::new();
        let mut codes: Vec<(String, ())> = Vec::new();
        proof {
            crate::keyed::lemma_table_empty(codes@);
        }
        let mut i: usize = 0;
        while i < inputs.len()
            invariant
                s == input_views(inputs@),
                i <= inputs@.len(),
                impact == fold_impact(s.take(i as int)),
                priority == fold_priority(s.take(i as int)),
                scope == fold_scope(self@, s.take(i as int)),
                rects@ == input_rects(s.take(i as int)),
                keys_sorted(codes@),
                forall|code: Seq<char>| #[trigger] table_map(codes@).dom().contains(code) <==> reason_codes(s.take(i as int)).contains(code),
            decreases inputs.len() - i,
        {
            let input = &inputs[i];
            let ghost prev = s.take(i as int);
            let ghost next = s.take(i + 1);
            assert(next.drop_last() =~= prev);
            assert(next.last() == input@);
            impact = impact.merge(input.impact);
            priority = higher_priority(priority, input.priority);
            let n = normalize_scope(&self.config, input.scope);
            scope = match scope {
                None => Some(n),
                Some(e) => Some(merge_scope(&self.config, e, n)),
            };
            match input.rect {
                Some(r) => rects.push(r),
                None => {},
            }
            table_insert(&mut codes, input.reason.code.clone(), ());
            proof {
                assert forall|code: Seq<char>| #[trigger] table_map(codes@).dom().contains(code) <==> reason_codes(next).contains(code) by {
                    if reason_codes(next).contains(code) {
                        let k = choose|k: int| 0 <= k < next.len() && #[trigger] next[k].code == code;
                        if k < i {
                            assert(prev[k] == next[k]);
                            assert(reason_codes(prev).contains(code));
                        }
                    }
                    if reason_codes(prev).contains(code) {
                        let k = choose|k: int| 0 <= k < prev.len() && #[trigger] prev[k].code == code;
                        assert(next[k] == prev[k]);
                        assert(reason_codes(next).contains(code));
                    }
                    if code == input@.code {
                        assert(next[i as int].code == code);
                    }
                }
            }
            i = i + 1;
        }
        assert(s.take(inputs.len() as int) =~= s);
        assert(table_map(codes@).dom() =~= reason_codes(s));
        let reasons = table_key_list(&codes);
        let b = InvalidationBatch {
            inputs: copy_inputs(inputs),
            scope,
            impact: Some(impact),
            rects,
            priority: Some(priority),
            reasons,
        };
        b
    }
}

/// The batch of a list of inputs.
pub open spec fn batch_of(c: InvalidationConfig, s: Seq<InputView>) -> BatchView {
    BatchView {
        inputs: s,
        scope: fold_scope(c, s),
        impact: Some(fold_impact(s)),
        rects: input_rects(s),
        priority: Some(fold_priority(s)),
        reasons: sorted_list(reason_codes(s)),
    }
}

// ---------------------------------------------------------------------------
// Plans
// ---------------------------------------------------------------------------

/// The node a node or subtree scope names.
pub open spec fn scope_node(s: InvalidationScope) -> Option<DomNodeRef> {
    match s {
        InvalidationScope::Node(n) => Some(n),
        InvalidationScope::Subtree(n) => Some(n),
        _ => None,
    }
}

/// The node of a scope, listed when work is needed there.
pub open spec fn node_list(node: Option<DomNodeRef>, needed: bool) -> Seq<DomNodeRef> {
    match node {
        Some(n) => if needed {
            seq![n]
        } else {
            Seq::empty()
        },
        None => Seq::empty(),
    }
}

/// The plan for a batch.
///
/// An empty batch plans nothing at low priority. Otherwise, with the
/// batch's impact, priority and scope (none, `Normal` and the document when
/// missing): the document is restyled for a document or viewport scope or
/// a cascade; the layout tree is rebuilt for tree or viewport layout, a
/// layout-tree or full-pipeline hint, layout work at a scope wider than a
/// node, or subtree layout at a subtree scope; the PaintPlan is rebuilt for
/// PaintPlan-level paint, any layout work, a PaintPlan-level hint, or any
/// paint at a scope wider than a node; the viewport is repainted for a
/// document or viewport scope, viewport paint or the full pipeline; the
/// scope's node is listed for the kinds of work it needs; the dirty
/// regions are the batch's rectangles, or the viewport when it is repainted
/// and there are none; the hint is the batch's, raised to what the plan does.
pub open spec fn plan_of(b: BatchView) -> PlanView {
    if b.inputs.len() == 0 {
        empty_plan()
    } else {
        let impact = match b.impact {
            Some(i) => i,
            None => no_impact(),
        };
        let priority = match b.priority {
            Some(p) => p,
            None => InvalidationPriority::Normal,
        };
        let scope = match b.scope {
            Some(s) => s,
            None => InvalidationScope::Document,
        };
        let doc = scope == InvalidationScope::Document || scope == InvalidationScope::Viewport;
        let broad = scope_node(scope) is None;
        let layout_work = impact.layout != LayoutInvalidationKind::Nothing;
        let restyle = doc || impact.style == StyleInvalidationKindLite::Cascade;
        let tree = impact.layout == LayoutInvalidationKind::Tree || impact.layout == LayoutInvalidationKind::Viewport
            || impact.rebuild == RebuildHint::LayoutTree || impact.rebuild == RebuildHint::FullPipeline
            || (broad && layout_work) || (scope is Subtree && layout_level(impact.layout) >= 3);
        let paint_plan = paint_level(impact.paint) >= 3 || layout_work || rebuild_level(impact.rebuild) >= 3
            || (broad && impact.paint != PaintInvalidationKind::Nothing);
        let full = doc || impact.paint == PaintInvalidationKind::Viewport || impact.rebuild == RebuildHint::FullPipeline;
        let node = scope_node(scope);
        let style_nodes = node_list(node, impact.style != StyleInvalidationKindLite::Nothing);
        let dirty = if b.rects.len() > 0 {
            b.rects.map_values(|r: InvalidationRectRef| DirtyRect::Rect(r))
        } else if full {
            seq![DirtyRect::Viewport]
        } else {
            Seq::empty()
        };
        let hint = if tree {
            RebuildHint::LayoutTree
        } else if paint_plan {
            RebuildHint::PaintPlan
        } else if restyle || style_nodes.len() > 0 {
            RebuildHint::StyleOnly
        } else {
            RebuildHint::Nothing
        };
        PlanView {
            input_count: b.inputs.len(),
            style_nodes,
            layout_nodes: node_list(node, layout_work),
            paint_nodes: node_list(node, impact.paint != PaintInvalidationKind::Nothing),
            restyle_document: restyle,
            rebuild_layout_tree: tree,
            rebuild_paint_plan: paint_plan,
            full_viewport_paint: full,
            dirty_rects: dirty,
            priority,
            rebuild_hint: max_rebuild(impact.rebuild, hint),
            reasons: b.reasons,
        }
    }
}

fn listed(node: Option<DomNodeRef>, needed: bool) -> (r: Vec<DomNodeRef>)
    ensures
        r@ == node_list(node, needed),
{
    let mut r: Vec<DomNodeRef> = Vec::new();
    match node {
        Some(n) => {
            if needed {
                r.push(n);
            }
        },
        None => {},
    }
    assert(r@ =~= node_list(node, needed));
    r
}

fn plan_for(batch: &InvalidationBatch) -> (p: InvalidationPlan)
    ensures
        p@ == plan_of(batch@),
{
    if batch.is_empty() {
        let p = InvalidationPlan {
            input_count: 0,
            style_nodes: Vec::new(),
            layout_nodes: Vec::new(),
            paint_nodes: Vec::new(),
            restyle_document: false,
            rebuild_layout_tree: false,
            rebuild_paint_plan: false,
            full_viewport_paint: false,
            dirty_rects: Vec::new(),
            priority: InvalidationPriority::Low,
            rebuild_hint: RebuildHint::Nothing,
            reasons: Vec::new(),
        };
        assert(p@.reasons =~= Seq::<Seq<char>>::empty());
        return p;
    }
    let impact = match batch.impact {
        Some(i) => i,
        None => InvalidationImpact::none(),
    };
    let priority = match batch.priority {
        Some(p) => p,
        None => InvalidationPriority::Normal,
    };
    let scope = match batch.scope {
        Some(s) => s,
        None => InvalidationScope::Document,
    };
    let node: Option<DomNodeRef> = match scope {
        InvalidationScope::Node(n) => Some(n),
        InvalidationScope::Subtree(n) => Some(n),
        _ => None,
    };
    let is_subtree = match scope {
        InvalidationScope::Subtree(_) => true,
        _ => false,
    };
    let doc = scope == InvalidationScope::Document || scope == InvalidationScope::Viewport;
    let broad = node.is_none();
    let layout_work = impact.layout != LayoutInvalidationKind::Nothing;
    let restyle = doc || impact.style == StyleInvalidationKindLite::Cascade;
    let tree = impact.layout == LayoutInvalidationKind::Tree || impact.layout == LayoutInvalidationKind::Viewport
        || impact.rebuild == RebuildHint::LayoutTree || impact.rebuild == RebuildHint::FullPipeline
        || (broad && layout_work) || (is_subtree && layout_rank(impact.layout) >= 3);
    let paint_plan = paint_rank(impact.paint) >= 3 || layout_work || rebuild_rank(impact.rebuild) >= 3
        || (broad && impact.paint != PaintInvalidationKind::Nothing);
    let full = doc || impact.paint == PaintInvalidationKind::Viewport || impact.rebuild == RebuildHint::FullPipeline;
    let style_nodes = listed(node, impact.style != StyleInvalidationKindLite::Nothing);
    let mut dirty: Vec<DirtyRect> = Vec::new();
    if batch.rects.len() > 0 {
        let mut i: usize = 0;
        while i < batch.rects.len()
            invariant
                i <= batch.rects@.len(),
                dirty@ == batch.rects@.take(i as int).map_values(|r: InvalidationRectRef| DirtyRect::Rect(r)),
            decreases batch.rects.len() - i,
        {
            dirty.push(DirtyRect::Rect(batch.rects[i]));
            i = i + 1;
            assert(dirty@ =~= batch.rects@.take(i as int).map_values(|r: InvalidationRectRef| DirtyRect::Rect(r)));
        }
        assert(batch.rects@.take(batch.rects.len() as int) =~= batch.rects@);
    } else if full {
        dirty.push(DirtyRect::Viewport);
        assert(dirty@ =~= seq![DirtyRect::Viewport]);
    } else {
        assert(dirty@ =~= Seq::<DirtyRect>::empty());
    }
    let hint = if tree {
        RebuildHint::LayoutTree
    } else if paint_plan {
        RebuildHint::PaintPlan
    } else if restyle || style_nodes.len() > 0 {
        RebuildHint::StyleOnly
    } else {
        RebuildHint::Nothing
    };
    InvalidationPlan {
        input_count: batch.inputs.len(),
        style_nodes,
        layout_nodes: listed(node, layout_work),
        paint_nodes: listed(node, impact.paint != PaintInvalidationKind::Nothing),
        restyle_document: restyle,
        rebuild_layout_tree: tree,
        rebuild_paint_plan: paint_plan,
        full_viewport_paint: full,
        dirty_rects: dirty,
        priority,
        rebuild_hint: higher_rebuild(impact.rebuild, hint),
        reasons: clone_strings(&batch.reasons),
    }
}

// ---------------------------------------------------------------------------
// Inputs from the script pipeline, the CSSOM and the DOM
// ---------------------------------------------------------------------------

/// Impact of DOM changes.
pub open spec fn dom_dirty_impact() -> InvalidationImpact {
    InvalidationImpact {
        style: StyleInvalidationKindLite::Cascade,
        layout: LayoutInvalidationKind::Tree,
        paint: PaintInvalidationKind::PaintPlan,
        rebuild: RebuildHint::FullPipeline,
    }
}

/// Impact of style changes.
pub open spec fn style_dirty_impact() -> InvalidationImpact {
    InvalidationImpact {
        style: StyleInvalidationKindLite::Cascade,
        layout: LayoutInvalidationKind::Subtree,
        paint: PaintInvalidationKind::PaintPlan,
        rebuild: RebuildHint::LayoutTree,
    }
}

/// Impact of layout changes.
pub open spec fn layout_dirty_impact() -> InvalidationImpact {
    InvalidationImpact {
        style: StyleInvalidationKindLite::Nothing,
        layout: LayoutInvalidationKind::Tree,
        paint: PaintInvalidationKind::PaintPlan,
        rebuild: RebuildHint::LayoutTree,
    }
}

/// Impact of paint changes.
pub open spec fn paint_dirty_impact() -> InvalidationImpact {
    InvalidationImpact {
        style: StyleInvalidationKindLite::Nothing,
        layout: LayoutInvalidationKind::Nothing,
        paint: PaintInvalidationKind::PaintPlan,
        rebuild: RebuildHint::PaintPlan,
    }
}

/// Impact of a lifecycle change: paint only.
pub open spec fn lifecycle_dirty_impact() -> InvalidationImpact {
    InvalidationImpact {
        style: StyleInvalidationKindLite::Nothing,
        layout: LayoutInvalidationKind::Nothing,
        paint: PaintInvalidationKind::Node,
        rebuild: RebuildHint::PaintPlan,
    }
}

/// The impacts of the dirty flags merged.
pub open spec fn dirty_impact(f: Set<DirtyFlag>) -> InvalidationImpact {
    let i1 = if f.contains(DirtyFlag::Dom) { merged(no_impact(), dom_dirty_impact()) } else { no_impact() };
    let i2 = if f.contains(DirtyFlag::Style) { merged(i1, style_dirty_impact()) } else { i1 };
    let i3 = if f.contains(DirtyFlag::Layout) { merged(i2, layout_dirty_impact()) } else { i2 };
    let i4 = if f.contains(DirtyFlag::Paint) { merged(i3, paint_dirty_impact()) } else { i3 };
    if f.contains(DirtyFlag::Lifecycle) { merged(i4, lifecycle_dirty_impact()) } else { i4 }
}

/// The input for a reflow request: high priority, whole document.
pub open spec fn reflow_input(r: ReflowView) -> InputView {
    InputView {
        source: InvalidationSource::ScriptPipeline,
        priority: InvalidationPriority::High,
        scope: InvalidationScope::Document,
        impact: dirty_impact(r.dirty),
        rect: None,
        code: "script-reflow"@,
        detail: r.reason,
    }
}

fn impact_from_dirty_flags(flags: &DirtyFlags) -> (i: InvalidationImpact)
    ensures
        i == dirty_impact(flags@),
{
    let mut impact = InvalidationImpact::none();
    if flags.contains(DirtyFlag::Dom) {
        impact = impact.merge(
            InvalidationImpact {
                style: StyleInvalidationKindLite::Cascade,
                layout: LayoutInvalidationKind::Tree,
                paint: PaintInvalidationKind::PaintPlan,
                rebuild: RebuildHint::FullPipeline,
            },
        );
    }
    if flags.contains(DirtyFlag::Style) {
        impact = impact.merge(
            InvalidationImpact {
                style: StyleInvalidationKindLite::Cascade,
                layout: LayoutInvalidationKind::Subtree,
                paint: PaintInvalidationKind::PaintPlan,
                rebuild: RebuildHint::LayoutTree,
            },
        );
    }
    if flags.contains(DirtyFlag::Layout) {
        impact = impact.merge(
            InvalidationImpact {
                style: StyleInvalidationKindLite::Nothing,
                layout: LayoutInvalidationKind::Tree,
                paint: PaintInvalidationKind::PaintPlan,
                rebuild: RebuildHint::LayoutTree,
            },
        );
    }
    if flags.contains(DirtyFlag::Paint) {
        impact = impact.merge(
            InvalidationImpact {
                style: StyleInvalidationKindLite::Nothing,
                layout: LayoutInvalidationKind::Nothing,
                paint: PaintInvalidationKind::PaintPlan,
                rebuild: RebuildHint::PaintPlan,
            },
        );
    }
    if flags.contains(DirtyFlag::Lifecycle) {
        impact = impact.merge(InvalidationImpact::paint());
    }
    impact
}

/// Converts a script-pipeline reflow request to an invalidation input.
pub fn input_from_reflow_request(request: &ReflowRequest) -> (i: InvalidationInput)
    ensures
        i@ == reflow_input(request@),
{
    InvalidationInput {
        source: InvalidationSource::ScriptPipeline,
        priority: InvalidationPriority::High,
        scope: InvalidationScope::Document,
        impact: impact_from_dirty_flags(&request.dirty),
        rect: None,
        reason: InvalidationReason::new("script-reflow", request.reason.as_str()),
    }
}

/// The input for a style mutation: its node (the document without one),
/// high priority for layout changes, the impact its invalidation kind calls for.
pub open spec fn mutation_input(m: MutationView) -> InputView {
    InputView {
        source: InvalidationSource::Cssom,
        priority: if m.invalidation == StyleInvalidationKind::Layout {
            InvalidationPriority::High
        } else {
            InvalidationPriority::Normal
        },
        scope: match m.node {
            Some(n) => InvalidationScope::Node(n),
            None => InvalidationScope::Document,
        },
        impact: match m.invalidation {
            StyleInvalidationKind::Paint => InvalidationImpact {
                style: StyleInvalidationKindLite::Inline,
                layout: LayoutInvalidationKind::Nothing,
                paint: PaintInvalidationKind::Node,
                rebuild: RebuildHint::PaintPlan,
            },
            StyleInvalidationKind::Layout => InvalidationImpact {
                style: StyleInvalidationKindLite::Inline,
                layout: LayoutInvalidationKind::Node,
                paint: PaintInvalidationKind::Subtree,
                rebuild: RebuildHint::LayoutTree,
            },
            StyleInvalidationKind::StyleRecalc => InvalidationImpact {
                style: StyleInvalidationKindLite::SelectorMatch,
                layout: LayoutInvalidationKind::Subtree,
                paint: PaintInvalidationKind::PaintPlan,
                rebuild: RebuildHint::LayoutTree,
            },
        },
        rect: None,
        code: "cssom-mutation"@,
        detail: m.property + " changed"@,
    }
}

/// Converts CSSOM mutations into invalidation inputs, one each, in order.
pub fn collect_cssom_mutation_invalidations(mutations: &[CssStyleMutation]) -> (r: Vec<InvalidationInput>)
    ensures
        input_views(r@) == mutation_views(mutations@).map_values(|m: MutationView| mutation_input(m)),
{
    let mut r: Vec<InvalidationInput> = Vec::new();
    let mut i: usize = 0;
    while i < mutations.len()
        invariant
            i <= mutations@.len(),
            r@.len() == i,
            forall|k: int| 0 <= k < i ==> (#[trigger] r@[k])@ == mutation_input(mutations@[k]@),
        decreases mutations.len() - i,
    {
        let m = &mutations[i];
        let impact = match m.invalidation {
            StyleInvalidationKind::Paint => InvalidationImpact::style_paint(),
            StyleInvalidationKind::Layout => InvalidationImpact::layout_paint(),
            StyleInvalidationKind::StyleRecalc => InvalidationImpact {
                style: StyleInvalidationKindLite::SelectorMatch,
                layout: LayoutInvalidationKind::Subtree,
                paint: PaintInvalidationKind::PaintPlan,
                rebuild: RebuildHint::LayoutTree,
            },
        };
        let priority = if m.invalidation == StyleInvalidationKind::Layout {
            InvalidationPriority::High
        } else {
            InvalidationPriority::Normal
        };
        let scope = match m.node {
            Some(n) => InvalidationScope::Node(n),
            None => InvalidationScope::Document,
        };
        let detail = concat(m.property.as_str(), " changed");
        r.push(
            InvalidationInput {
                source: InvalidationSource::Cssom,
                priority,
                scope,
                impact,
                rect: None,
                reason: InvalidationReason::new("cssom-mutation", detail.as_str()),
            },
        );
        i = i + 1;
    }
    assert(input_views(r@) =~= mutation_views(mutations@).map_values(|m: MutationView| mutation_input(m)));
    r
}

/// The input for a changed DOM node: a text node invalidates its parent's
/// subtree (itself without a parent) for intrinsic size; a script element
/// none; any other node its subtree for selector matching.
pub open spec fn snapshot_input(s: DomNodeSnapshot) -> Option<InputView> {
    if s.node_type == DomNodeType::Text {
        Some(
            InputView {
                source: InvalidationSource::Dom,
                priority: InvalidationPriority::Normal,
                scope: match s.parent {
                    Some(p) => InvalidationScope::Subtree(p),
                    None => InvalidationScope::Node(s.id),
                },
                impact: InvalidationImpact {
                    style: StyleInvalidationKindLite::Nothing,
                    layout: LayoutInvalidationKind::IntrinsicSize,
                    paint: PaintInvalidationKind::Subtree,
                    rebuild: RebuildHint::LayoutTree,
                },
                rect: None,
                code: "dom-text"@,
                detail: "text node changed"@,
            },
        )
    } else if eq_ignore_case(s.tag_name@, "script"@) {
        None
    } else {
        Some(
            InputView {
                source: InvalidationSource::Dom,
                priority: InvalidationPriority::Normal,
                scope: InvalidationScope::Subtree(s.id),
                impact: InvalidationImpact {
                    style: StyleInvalidationKindLite::SelectorMatch,
                    layout: LayoutInvalidationKind::Subtree,
                    paint: PaintInvalidationKind::PaintPlan,
                    rebuild: RebuildHint::LayoutTree,
                },
                rect: None,
                code: "dom-node"@,
                detail: s.tag_name@ + " node changed"@,
            },
        )
    }
}

/// The inputs for a list of changed DOM nodes, in order.
pub open spec fn snapshot_inputs(s: Seq<DomNodeSnapshot>) -> Seq<InputView>
    decreases s.len(),
{
    if s.len() == 0 {
        Seq::empty()
    } else {
        match snapshot_input(s.last()) {
            Some(i) => snapshot_inputs(s.drop_last()).push(i),
            None => snapshot_inputs(s.drop_last()),
        }
    }
}

/// Converts DOM snapshots into conservative invalidation inputs.
pub fn collect_dom_snapshot_invalidations(snapshots: &[DomNodeSnapshot]) -> (r: Vec<InvalidationInput>)
    ensures
        input_views(r@) == snapshot_inputs(snapshots@),
{
    let mut r: Vec<InvalidationInput> = Vec::new();
    let mut i: usize = 0;
    while i < snapshots.len()
        invariant
            i <= snapshots@.len(),
            input_views(r@) == snapshot_inputs(snapshots@.take(i as int)),
        decreases snapshots.len() - i,
    {
        let s = &snapshots[i];
        let ghost before = r@;
        assert(snapshots@.take(i + 1).drop_last() =~= snapshots@.take(i as int));
        assert(snapshots@.take(i + 1).last() == *s);
        if s.node_type == DomNodeType::Text {
            let scope = match s.parent {
                Some(p) => InvalidationScope::Subtree(p),
                None => InvalidationScope::Node(s.id),
            };
            r.push(
                InvalidationInput {
                    source: InvalidationSource::Dom,
                    priority: InvalidationPriority::Normal,
                    scope,
                    impact: InvalidationImpact {
                        style: StyleInvalidationKindLite::Nothing,
                        layout: LayoutInvalidationKind::IntrinsicSize,
                        paint: PaintInvalidationKind::Subtree,
                        rebuild: RebuildHint::LayoutTree,
                    },
                    rect: None,
                    reason: InvalidationReason::new("dom-text", "text node changed"),
                },
            );
            assert(input_views(r@) =~= input_views(before).push(r@.last()@));
        } else if crate::text::str_eq_ignore_case(s.tag_name.as_str(), "script") {
        } else {
            let detail = concat(s.tag_name.as_str(), " node changed");
            r.push(
                InvalidationInput {
                    source: InvalidationSource::Dom,
                    priority: InvalidationPriority::Normal,
                    scope: InvalidationScope::Subtree(s.id),
                    impact: InvalidationImpact {
                        style: StyleInvalidationKindLite::SelectorMatch,
                        layout: LayoutInvalidationKind::Subtree,
                        paint: PaintInvalidationKind::PaintPlan,
                        rebuild: RebuildHint::LayoutTree,
                    },
                    rect: None,
                    reason: InvalidationReason::new("dom-node", detail.as_str()),
                },
            );
            assert(input_views(r@) =~= input_views(before).push(r@.last()@));
        }
        i = i + 1;
    }
    assert(snapshots@.take(snapshots.len() as int) =~= snapshots@);
    r
}

// ---------------------------------------------------------------------------
// Engine
// ---------------------------------------------------------------------------

/// Invalidation engine event.
#[derive(Debug, Clone, PartialEq, Eq)]
pub enum InvalidationEvent {
    /// Input submitted.
    InputSubmitted(InvalidationInput),
    /// Batch coalesced.
    BatchCoalesced(InvalidationBatch),
    /// Plan produced.
    PlanProduced(InvalidationPlan),
    /// Queue cleared.
    QueueCleared,
}

/// Model of an event.
pub enum EventView {
    InputSubmitted(InputView),
    BatchCoalesced(BatchView),
    PlanProduced(PlanView),
    QueueCleared,
}

impl View for InvalidationEvent {
    type V = EventView;

    open spec fn view(&self) -> EventView {
        match self {
            InvalidationEvent::InputSubmitted(i) => EventView::InputSubmitted(i@),
            InvalidationEvent::BatchCoalesced(b) => EventView::BatchCoalesced(b@),
            InvalidationEvent::PlanProduced(p) => EventView::PlanProduced(p@),
            InvalidationEvent::QueueCleared => EventView::QueueCleared,
        }
    }
}

/// Views of a list of events.
pub open spec fn event_views(s: Seq<InvalidationEvent>) -> Seq<EventView> {
    s.map_values(|e: InvalidationEvent| e@)
}

impl InvalidationEvent {
    fn copy(&self) -> (c: Self)
        ensures
            c@ == self@,
    {
        match self {
            InvalidationEvent::InputSubmitted(i) => InvalidationEvent::InputSubmitted(i.copy()),
            InvalidationEvent::BatchCoalesced(b) => InvalidationEvent::BatchCoalesced(b.copy()),
            InvalidationEvent::PlanProduced(p) => InvalidationEvent::PlanProduced(p.copy()),
            InvalidationEvent::QueueCleared => InvalidationEvent::QueueCleared,
        }
    }
}

/// Invalidation engine.
#[derive(Debug)]
pub struct InvalidationEngine {
    config: InvalidationConfig,
    queue: Vec<InvalidationInput>,
    metrics: InvalidationMetrics,
    events: Vec<InvalidationEvent>,
}

/// Model of the engine: its configuration, the queued inputs, its metrics
/// and the retained events, oldest first.
pub struct EngineView {
    pub config: InvalidationConfig,
    pub queue: Seq<InputView>,
    pub metrics: InvalidationMetrics,
    pub events: Seq<EventView>,
}

impl View for InvalidationEngine {
    type V = EngineView;

    closed spec fn view(&self) -> EngineView {
        EngineView {
            config: self.config,
            queue: input_views(self.queue@),
            metrics: self.metrics,
            events: event_views(self.events@),
        }
    }
}

/// The newest `max` events.
pub open spec fn kept_events(s: Seq<EventView>, max: nat) -> Seq<EventView> {
    if s.len() > max {
        s.subrange(s.len() - max, s.len() as int)
    } else {
        s
    }
}

/// An event recorded, the oldest dropped beyond the configured maximum.
pub open spec fn with_event(v: EngineView, e: EventView) -> EngineView {
    EngineView { events: kept_events(v.events.push(e), v.config.max_events as nat), ..v }
}

/// A submitted input: counted, recorded, queued.
pub open spec fn submit_effect(v: EngineView, i: InputView) -> EngineView {
    let v1 = with_event(
        EngineView { metrics: InvalidationMetrics { inputs_submitted: sat_inc(v.metrics.inputs_submitted), ..v.metrics }, ..v },
        EventView::InputSubmitted(i),
    );
    EngineView { queue: v1.queue.push(i), ..v1 }
}

/// Inputs submitted one after another.
pub open spec fn submit_all(v: EngineView, s: Seq<InputView>) -> EngineView
    decreases s.len(),
{
    if s.len() == 0 {
        v
    } else {
        submit_effect(submit_all(v, s.drop_last()), s.last())
    }
}

/// The plan counters after a plan.
pub open spec fn plan_counts(m: InvalidationMetrics, p: PlanView) -> InvalidationMetrics {
    InvalidationMetrics {
        plans_produced: sat_inc(m.plans_produced),
        full_pipeline_plans: if p.rebuild_hint == RebuildHint::FullPipeline {
            sat_inc(m.full_pipeline_plans)
        } else {
            m.full_pipeline_plans
        },
        layout_tree_rebuild_plans: if p.rebuild_layout_tree {
            sat_inc(m.layout_tree_rebuild_plans)
        } else {
            m.layout_tree_rebuild_plans
        },
        paint_plan_rebuild_plans: if p.rebuild_paint_plan {
            sat_inc(m.paint_plan_rebuild_plans)
        } else {
            m.paint_plan_rebuild_plans
        },
        viewport_paint_plans: if p.full_viewport_paint {
            sat_inc(m.viewport_paint_plans)
        } else {
            m.viewport_paint_plans
        },
        ..m
    }
}

/// A flush: the queued inputs coalesced into a batch and the batch into a
/// plan; the queue emptied, the counters raised, both recorded.
pub open spec fn flushed(v: EngineView) -> (EngineView, PlanView) {
    let b = batch_of(v.config, v.queue);
    let p = plan_of(b);
    let v1 = with_event(
        EngineView {
            queue: Seq::empty(),
            metrics: InvalidationMetrics {
                inputs_coalesced: sat_add_n(v.metrics.inputs_coalesced, v.queue.len()),
                ..v.metrics
            },
            ..v
        },
        EventView::BatchCoalesced(b),
    );
    (with_event(EngineView { metrics: plan_counts(v1.metrics, p), ..v1 }, EventView::PlanProduced(p)), p)
}

/// A fresh engine.
pub open spec fn fresh_engine(config: InvalidationConfig) -> EngineView {
    EngineView { config, queue: Seq::empty(), metrics: zero_invalidation_metrics(), events: Seq::empty() }
}

impl Default for InvalidationEngine {
    fn default() -> (e: Self)
        ensures
            e@ == fresh_engine(default_invalidation_config()),
    {
        Self::new(InvalidationConfig::default())
    }
}

impl InvalidationEngine {
    /// Creates a new engine.
    pub fn new(config: InvalidationConfig) -> (e: Self)
        ensures
            e@ == fresh_engine(config),
    {
        let e = InvalidationEngine {
            config,
            queue: Vec::new(),
            metrics: InvalidationMetrics::default(),
            events: Vec::new(),
        };
        assert(e@.queue =~= Seq::<InputView>::empty());
        assert(e@.events =~= Seq::<EventView>::empty());
        e
    }

    fn push_event(&mut self, event: InvalidationEvent)
        ensures
            final(self)@ == with_event(old(self)@, event@),
    {
        let ghost full = event_views(self.events@).push(event@);
        self.events.push(event);
        assert(event_views(self.events@) =~= full);
        let max = self.config.max_events;
        let ghost start: int = 0;
        while self.events.len() > max
            invariant
                max == self.config.max_events,
                self.config == old(self).config,
                self.queue == old(self).queue,
                self.metrics == old(self).metrics,
                0 <= start <= full.len(),
                self.events@.len() == full.len() - start,
                event_views(self.events@) == full.subrange(start, full.len() as int),
                full.len() > max ==> start <= full.len() - max,
                full.len() <= max ==> start == 0,
            decreases self.events.len(),
        {
            let ghost prev = self.events@;
            self.events.remove(0);
            proof {
                let s0 = start;
                start = start + 1;
                assert forall|k: int| 0 <= k < self.events@.len() implies #[trigger] event_views(self.events@)[k]
                    == full.subrange(start, full.len() as int)[k] by {
                    assert(self.events@[k] == prev[k + 1]);
                    assert(event_views(prev)[k + 1] == full.subrange(s0, full.len() as int)[k + 1]);
                }
                assert(event_views(self.events@) =~= full.subrange(start, full.len() as int));
            }
        }
        proof {
            if full.len() > max {
                assert(start == full.len() - max);
            } else {
                assert(full.subrange(0, full.len() as int) =~= full);
            }
        }
        assert(self@ =~= with_event(old(self)@, event@));
    }

    /// Submits an invalidation input.
    pub fn submit(&mut self, input: InvalidationInput)
        ensures
            final(self)@ == submit_effect(old(self)@, input@),
    {
        self.metrics.inputs_submitted = self.metrics.inputs_submitted.saturating_add(1);
        self.push_event(InvalidationEvent::InputSubmitted(input.copy()));
        let ghost before = self@;
        self.queue.push(input);
        assert(input_views(self.queue@) =~= before.queue.push(input@));
        assert(self@ =~= submit_effect(old(self)@, input@));
    }

    /// Submits many inputs, in order.
    pub fn submit_many(&mut self, inputs: Vec<InvalidationInput>)
        ensures
            final(self)@ == submit_all(old(self)@, input_views(inputs@)),
    {
        let ghost s = input_views(inputs@);
        let mut i: usize = 0;
        while i < inputs.len()
            invariant
                s == input_views(inputs@),
                i <= inputs@.len(),
                self@ == submit_all(old(self)@, s.take(i as int)),
            decreases inputs.len() - i,
        {
            let ghost prev = s.take(i as int);
            assert(s.take(i + 1).drop_last() =~= prev);
            self.submit(inputs[i].copy());
            i = i + 1;
        }
        assert(s.take(inputs.len() as int) =~= s);
    }

    /// Returns the number of queued inputs.
    pub fn queued_len(&self) -> (n: usize)
        ensures
            n == self@.queue.len(),
    {
        self.queue.len()
    }

    /// Empties the queue and records it.
    pub fn clear(&mut self)
        ensures
            final(self)@ == with_event(EngineView { queue: Seq::empty(), ..old(self)@ }, EventView::QueueCleared),
    {
        self.queue = Vec::new();
        assert(input_views(self.queue@) =~= Seq::<InputView>::empty());
        self.push_event(InvalidationEvent::QueueCleared);
    }

    /// Produces a plan from the queued inputs and empties the queue.
    pub fn flush_plan(&mut self) -> (p: InvalidationPlan)
        ensures
            (final(self)@, p@) == flushed(old(self)@),
    {
        let mut inputs: Vec<InvalidationInput> = Vec::new();
        std::mem::swap(&mut inputs, &mut self.queue);
        let coalescer = InvalidationCoalescer::new(self.config);
        let batch = coalescer.coalesce(inputs.as_slice());
        let n = batch.inputs.len();
        self.metrics.inputs_coalesced = self.metrics.inputs_coalesced.saturating_add(n as u64);
        assert(input_views(self.queue@) =~= Seq::<InputView>::empty());
        self.push_event(InvalidationEvent::BatchCoalesced(batch.copy()));
        let plan = plan_for(&batch);
        self.metrics.plans_produced = self.metrics.plans_produced.saturating_add(1);
        if plan.rebuild_hint == RebuildHint::FullPipeline {
            self.metrics.full_pipeline_plans = self.metrics.full_pipeline_plans.saturating_add(1);
        }
        if plan.rebuild_layout_tree {
            self.metrics.layout_tree_rebuild_plans = self.metrics.layout_tree_rebuild_plans.saturating_add(1);
        }
        if plan.rebuild_paint_plan {
            self.metrics.paint_plan_rebuild_plans = self.metrics.paint_plan_rebuild_plans.saturating_add(1);
        }
        if plan.full_viewport_paint {
            self.metrics.viewport_paint_plans = self.metrics.viewport_paint_plans.saturating_add(1);
        }
        self.push_event(InvalidationEvent::PlanProduced(plan.copy()));
        plan
    }

    /// Consumes a script-pipeline reflow request.
    pub fn consume_reflow_request(&mut self, request: &ReflowRequest)
        ensures
            final(self)@ == submit_effect(
                EngineView {
                    metrics: InvalidationMetrics {
                        reflow_requests_consumed: sat_inc(old(self)@.metrics.reflow_requests_consumed),
                        ..old(self)@.metrics
                    },
                    ..old(self)@
                },
                reflow_input(request@),
            ),
    {
        self.metrics.reflow_requests_consumed = self.metrics.reflow_requests_consumed.saturating_add(1);
        self.submit(input_from_reflow_request(request));
    }

    /// Consumes CSSOM mutations.
    pub fn consume_cssom_mutations(&mut self, mutations: &[CssStyleMutation])
        ensures
            final(self)@ == submit_all(
                EngineView {
                    metrics: InvalidationMetrics {
                        cssom_mutations_consumed: sat_add_n(old(self)@.metrics.cssom_mutations_consumed, mutations@.len()),
                        ..old(self)@.metrics
                    },
                    ..old(self)@
                },
                mutation_views(mutations@).map_values(|m: MutationView| mutation_input(m)),
            ),
    {
        let n = mutations.len();
        self.metrics.cssom_mutations_consumed = self.metrics.cssom_mutations_consumed.saturating_add(n as u64);
        self.submit_many(collect_cssom_mutation_invalidations(mutations));
    }

    /// Consumes DOM snapshots conservatively.
    pub fn consume_dom_snapshots(&mut self, snapshots: &[DomNodeSnapshot])
        ensures
            final(self)@ == submit_all(
                EngineView {
                    metrics: InvalidationMetrics {
                        dom_snapshots_consumed: sat_add_n(old(self)@.metrics.dom_snapshots_consumed, snapshots@.len()),
                        ..old(self)@.metrics
                    },
                    ..old(self)@
                },
                snapshot_inputs(snapshots@),
            ),
    {
        let n = snapshots.len();
        self.metrics.dom_snapshots_consumed = self.metrics.dom_snapshots_consumed.saturating_add(n as u64);
        self.submit_many(collect_dom_snapshot_invalidations(snapshots));
    }

    /// Metrics snapshot.
    pub fn metrics(&self) -> (m: InvalidationMetrics)
        ensures
            m == self@.metrics,
    {
        self.metrics
    }

    /// Events snapshot, oldest first.
    pub fn events(&self) -> (r: Vec<InvalidationEvent>)
        ensures
            event_views(r@) == self@.events,
    {
        let mut r: Vec<InvalidationEvent> = Vec::new();
        let mut i: usize = 0;
        while i < self.events.len()
            invariant
                i <= self.events@.len(),
                r@.len() == i,
                forall|k: int| 0 <= k < i ==> (#[trigger] r@[k])@ == self.events@[k]@,
            decreases self.events.len() - i,
        {
            r.push(self.events[i].copy());
            i = i + 1;
        }
        assert(event_views(r@) =~= event_views(self.events@));
        r
    }
}

/// Applies a reflow request to an engine.
pub fn apply_reflow_request_to_invalidation_engine(engine: &mut InvalidationEngine, request: &ReflowRequest)
    ensures
        final(engine)@ == submit_effect(
            EngineView {
                metrics: InvalidationMetrics {
                    reflow_requests_consumed: sat_inc(old(engine)@.metrics.reflow_requests_consumed),
                    ..old(engine)@.metrics
                },
                ..old(engine)@
            },
            reflow_input(request@),
        ),
{
    engine.consume_reflow_request(request);
}

// ---------------------------------------------------------------------------
// Script-pipeline hooks feeding an engine
// ---------------------------------------------------------------------------

/// Script-pipeline hooks that feed an invalidation engine and record the
/// scripts they saw.
pub struct ResearchInvalidationHooks {
    engine: InvalidationEngine,
    before: Vec<u64>,
    after: Vec<u64>,
    failures: Vec<ScriptExecutionFailure>,
    calls: Ghost<Seq<HookCall>>,
}

/// Model of the hooks.
pub struct InvalidationHooksView {
    pub engine: EngineView,
    pub before: Seq<u64>,
    pub after: Seq<u64>,
    pub failures: Seq<FailureView>,
}

impl View for ResearchInvalidationHooks {
    type V = InvalidationHooksView;

    closed spec fn view(&self) -> InvalidationHooksView {
        InvalidationHooksView {
            engine: self.engine@,
            before: self.before@,
            after: self.after@,
            failures: failure_views(self.failures@),
        }
    }
}

/// The reflow request of a lifecycle event: no script, lifecycle dirt only.
pub open spec fn lifecycle_reflow(name: Seq<char>) -> ReflowView {
    ReflowView { script_id: None, label: name, dirty: set![DirtyFlag::Lifecycle], reason: name }
}

/// The engine after consuming a reflow request.
pub open spec fn reflow_consumed(v: EngineView, r: ReflowView) -> EngineView {
    submit_effect(
        EngineView {
            metrics: InvalidationMetrics { reflow_requests_consumed: sat_inc(v.metrics.reflow_requests_consumed), ..v.metrics },
            ..v
        },
        reflow_input(r),
    )
}

fn copy_u64s(v: &Vec<u64>) -> (r: Vec<u64>)
    ensures
        r@ == v@,
{
    let mut r: Vec<u64> = Vec::new();
    let mut i: usize = 0;
    while i < v.len()
        invariant
            i <= v@.len(),
            r@ == v@.take(i as int),
        decreases v.len() - i,
    {
        r.push(v[i]);
        i = i + 1;
        assert(r@ =~= v@.take(i as int));
    }
    assert(v@.take(v.len() as int) =~= v@);
    r
}

fn lifecycle_request(name: &str) -> (r: ReflowRequest)
    ensures
        r@ == lifecycle_reflow(name@),
{
    let mut dirty = DirtyFlags::default();
    dirty.insert(DirtyFlag::Lifecycle);
    let r = ReflowRequest { script_id: None, label: owned(name), dirty, reason: owned(name) };
    assert(r@.dirty =~= set![DirtyFlag::Lifecycle]);
    r
}

impl ResearchInvalidationHooks {
    /// Creates hooks feeding an engine.
    pub fn new(engine: InvalidationEngine) -> (h: Self)
        ensures
            h@.engine == engine@,
            h@.before.len() == 0,
            h@.after.len() == 0,
            h@.failures.len() == 0,
    {
        ResearchInvalidationHooks {
            engine,
            before: Vec::new(),
            after: Vec::new(),
            failures: Vec::new(),
            calls: Ghost(Seq::empty()),
        }
    }

    /// The engine.
    pub fn engine(&self) -> (e: &InvalidationEngine)
        ensures
            e@ == self@.engine,
    {
        &self.engine
    }

    /// Gives the engine back.
    pub fn into_engine(self) -> (e: InvalidationEngine)
        ensures
            e@ == self@.engine,
    {
        self.engine
    }

    /// Before-script ids, in call order.
    pub fn before_script_ids(&self) -> (r: Vec<u64>)
        ensures
            r@ == self@.before,
    {
        copy_u64s(&self.before)
    }

    /// After-script ids, in call order.
    pub fn after_script_ids(&self) -> (r: Vec<u64>)
        ensures
            r@ == self@.after,
    {
        copy_u64s(&self.after)
    }

    /// Failures, in call order.
    pub fn failures(&self) -> (r: Vec<ScriptExecutionFailure>)
        ensures
            failure_views(r@) == self@.failures,
    {
        let mut r: Vec<ScriptExecutionFailure> = Vec::new();
        let mut i: usize = 0;
        while i < self.failures.len()
            invariant
                i <= self.failures@.len(),
                r@.len() == i,
                forall|k: int| 0 <= k < i ==> (#[trigger] r@[k])@ == self.failures@[k]@,
            decreases self.failures.len() - i,
        {
            let f = &self.failures[i];
            r.push(
                ScriptExecutionFailure { script_id: f.script_id, label: f.label.clone(), error: f.error.clone() },
            );
            i = i + 1;
        }
        assert(failure_views(r@) =~= failure_views(self.failures@));
        r
    }
}

impl ScriptPipelineHooks for ResearchInvalidationHooks {
    closed spec fn calls(&self) -> Seq<HookCall> {
        self.calls@
    }

    fn before_script(&mut self, descriptor: &ScriptDescriptor)
        ensures
            final(self)@ == (InvalidationHooksView { before: old(self)@.before.push(descriptor.id), ..old(self)@ }),
    {
        self.before.push(descriptor.id);
        proof {
            self.calls@ = self.calls@.push(HookCall::BeforeScript(descriptor@));
        }
    }

    fn after_script(&mut self, descriptor: &ScriptDescriptor)
        ensures
            final(self)@ == (InvalidationHooksView { after: old(self)@.after.push(descriptor.id), ..old(self)@ }),
    {
        self.after.push(descriptor.id);
        proof {
            self.calls@ = self.calls@.push(HookCall::AfterScript(descriptor@));
        }
    }

    fn script_failed(&mut self, descriptor: &ScriptDescriptor, error: &str)
        ensures
            final(self)@ == (InvalidationHooksView {
                failures: old(self)@.failures.push(
                    FailureView { script_id: descriptor.id, label: descriptor.label@, error: error@ },
                ),
                ..old(self)@
            }),
    {
        self.failures.push(
            ScriptExecutionFailure { script_id: descriptor.id, label: descriptor.label.clone(), error: owned(error) },
        );
        assert(failure_views(self.failures@) =~= failure_views(old(self).failures@).push(
            FailureView { script_id: descriptor.id, label: descriptor.label@, error: error@ },
        ));
        proof {
            self.calls@ = self.calls@.push(HookCall::ScriptFailed(descriptor@, error@));
        }
    }

    fn request_reflow(&mut self, request: &ReflowRequest)
        ensures
            final(self)@ == (InvalidationHooksView { engine: reflow_consumed(old(self)@.engine, request@), ..old(self)@ }),
    {
        self.engine.consume_reflow_request(request);
        proof {
            self.calls@ = self.calls@.push(HookCall::RequestReflow(request@));
        }
    }

    fn dom_content_loaded(&mut self)
        ensures
            final(self)@ == (InvalidationHooksView {
                engine: reflow_consumed(old(self)@.engine, lifecycle_reflow("DOMContentLoaded"@)),
                ..old(self)@
            }),
    {
        let r = lifecycle_request("DOMContentLoaded");
        self.engine.consume_reflow_request(&r);
        proof {
            self.calls@ = self.calls@.push(HookCall::DomContentLoaded);
        }
    }

    fn load(&mut self)
        ensures
            final(self)@ == (InvalidationHooksView {
                engine: reflow_consumed(old(self)@.engine, lifecycle_reflow("load"@)),
                ..old(self)@
            }),
    {
        let r = lifecycle_request("load");
        self.engine.consume_reflow_request(&r);
        proof {
            self.calls@ = self.calls@.push(HookCall::Load);
        }
    }
}

// ---------------------------------------------------------------------------
// Laws
// ---------------------------------------------------------------------------

/// A flush leaves the queue empty, and its plan counts every queued input.
pub proof fn lemma_flush_empties_queue(v: EngineView)
    ensures
        flushed(v).0.queue.len() == 0,
        flushed(v).1.input_count == v.queue.len(),
{
}

/// Flushing an empty queue plans nothing, at low priority.
pub proof fn lemma_empty_flush_plans_nothing(v: EngineView)
    requires
        v.queue.len() == 0,
    ensures
        flushed(v).1 == empty_plan(),
{
}

/// A submitted input goes to the end of the queue.
pub proof fn lemma_submit_queues_last(v: EngineView, i: InputView)
    ensures
        submit_effect(v, i).queue == v.queue.push(i),
        submit_effect(v, i).config == v.config,
{
}

/// The engine never retains more events than its configuration allows.
pub proof fn lemma_events_bounded(v: EngineView, e: EventView)
    ensures
        with_event(v, e).events.len() <= v.config.max_events,
        with_event(v, e).events.len() > 0 ==> with_event(v, e).events.last() == e || v.config.max_events == 0,
{
    let s = v.events.push(e);
    let max = v.config.max_events as nat;
    if s.len() > max && max > 0 {
        assert(kept_events(s, max).last() == s.last());
    }
}

/// A batch's priority is at least each input's, and is `Low` or the
/// priority of one of them.
pub proof fn lemma_batch_priority_covers(s: Seq<InputView>)
    ensures
        forall|k: int| 0 <= k < s.len() ==> priority_level(#[trigger] s[k].priority) <= priority_level(fold_priority(s)),
        fold_priority(s) == InvalidationPriority::Low || exists|k: int| 0 <= k < s.len() && #[trigger] s[k].priority == fold_priority(s),
    decreases s.len(),
{
    if s.len() > 0 {
        let t = s.drop_last();
        lemma_batch_priority_covers(t);
        assert forall|k: int| 0 <= k < s.len() implies priority_level(#[trigger] s[k].priority) <= priority_level(fold_priority(s)) by {
            if k < s.len() - 1 {
                assert(s[k] == t[k]);
            }
        }
        if fold_priority(s) != InvalidationPriority::Low {
            if fold_priority(s) == s.last().priority {
                assert(s[s.len() - 1].priority == fold_priority(s));
            } else {
                let k = choose|k: int| 0 <= k < t.len() && #[trigger] t[k].priority == fold_priority(t);
                assert(s[k] == t[k]);
            }
        }
    }
}

/// A batch's impact is at least each input's, in every part.
pub proof fn lemma_batch_impact_covers(s: Seq<InputView>, k: int)
    requires
        0 <= k < s.len(),
    ensures
        style_level(s[k].impact.style) <= style_level(fold_impact(s).style),
        layout_level(s[k].impact.layout) <= layout_level(fold_impact(s).layout),
        paint_level(s[k].impact.paint) <= paint_level(fold_impact(s).paint),
        rebuild_level(s[k].impact.rebuild) <= rebuild_level(fold_impact(s).rebuild),
    decreases s.len(),
{
    let t = s.drop_last();
    if k < s.len() - 1 {
        assert(s[k] == t[k]);
        lemma_batch_impact_covers(t, k);
    }
}

/// With document coalescing on, the document absorbs every other scope;
/// merging a scope with itself keeps it.
pub proof fn lemma_document_scope_absorbs(c: InvalidationConfig, s: InvalidationScope)
    ensures
        merged_scope(c, s, s) == s,
        c.coalesce_document_scope ==> merged_scope(c, InvalidationScope::Document, s) == InvalidationScope::Document,
        c.coalesce_document_scope ==> merged_scope(c, s, InvalidationScope::Document) == InvalidationScope::Document,
{
}

/// DOM dirt asks for the full pipeline, and a batch whose impact asks for
/// it gets a plan that repaints the viewport with the full-pipeline hint.
pub proof fn lemma_dom_dirt_full_pipeline(f: Set<DirtyFlag>, b: BatchView)
    ensures
        f.contains(DirtyFlag::Dom) ==> dirty_impact(f).rebuild == RebuildHint::FullPipeline,
        b.inputs.len() > 0 && b.impact == Some(dirty_impact(f)) && f.contains(DirtyFlag::Dom) ==> {
            &&& plan_of(b).full_viewport_paint
            &&& plan_of(b).rebuild_layout_tree
            &&& plan_of(b).rebuild_paint_plan
            &&& plan_of(b).rebuild_hint == RebuildHint::FullPipeline
        },
{
}

/// Whatever the batch, the plan's hint covers the batch's, and a layout-tree
/// rebuild or any layout work is matched by the hint and the PaintPlan.
pub proof fn lemma_plan_covers_impact(b: BatchView, i: InvalidationImpact)
    requires
        b.inputs.len() > 0,
        b.impact == Some(i),
    ensures
        rebuild_level(i.rebuild) <= rebuild_level(plan_of(b).rebuild_hint),
        plan_of(b).rebuild_layout_tree ==> rebuild_level(plan_of(b).rebuild_hint) >= rebuild_level(RebuildHint::LayoutTree),
        i.layout != LayoutInvalidationKind::Nothing ==> plan_of(b).rebuild_paint_plan,
        plan_of(b).priority == b.priority->Some_0 || b.priority is None,
{
}

} // verus!
