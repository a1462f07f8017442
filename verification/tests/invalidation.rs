use syljs::cssom::{CssStyleMutation, StyleInvalidationKind};
use syljs::dom::{DomNodeRef, DomNodeSnapshot, DomNodeType};
use syljs::event_loop::EventLoopRunSummary;
use syljs::invalidation::{
    apply_reflow_request_to_invalidation_engine, collect_cssom_mutation_invalidations,
    collect_dom_snapshot_invalidations, input_from_reflow_request, DirtyRect, InvalidationCoalescer,
    InvalidationConfig, InvalidationEngine, InvalidationEvent, InvalidationImpact, InvalidationInput,
    InvalidationPriority, InvalidationRectRef, InvalidationReason, InvalidationScope,
    InvalidationSource, LayoutInvalidationKind, PaintInvalidationKind, RebuildHint,
    ResearchInvalidationHooks, StyleInvalidationKindLite,
};
use syljs::script_pipeline::{
    run_research_script_pipeline, CurrentScript, DirtyFlag, DirtyFlags, ReflowRequest,
    ResearchScriptResourceLoader, ScriptDescriptor, ScriptExecutor, ScriptKind,
    ScriptPipelineConfig, ScriptPipelineHooks,
};

/// A stand-in engine that runs every script successfully.
#[derive(Default)]
struct QuietExecutor;

impl ScriptExecutor for QuietExecutor {
    // A specification-only view of the engine, never called at run time.
    fn executed(&self) -> vstd::seq::Seq<vstd::seq::Seq<char>> {
        unreachable!()
    }

    // A specification-only view of the engine, never called at run time.
    fn returned(
        &self,
    ) -> vstd::seq::Seq<Result<Option<syljs::event_loop::SummaryView>, vstd::seq::Seq<char>>> {
        unreachable!()
    }

    fn set_current_script(&mut self, _script: Option<&CurrentScript>) {}

    fn execute(
        &mut self,
        _kind: ScriptKind,
        _source: &str,
        _drain_after: bool,
    ) -> Result<Option<EventLoopRunSummary>, String> {
        Ok(None)
    }
}

fn input(scope: InvalidationScope, impact: InvalidationImpact, code: &str) -> InvalidationInput {
    InvalidationInput {
        source: InvalidationSource::Cssom,
        priority: InvalidationPriority::Normal,
        scope,
        impact,
        rect: None,
        reason: InvalidationReason::new(code, code),
    }
}

#[test]
fn reflow_request_becomes_full_pipeline_plan() {
    let mut dirty = DirtyFlags::default();
    dirty.insert(DirtyFlag::Dom);
    dirty.insert(DirtyFlag::Style);
    dirty.insert(DirtyFlag::Layout);
    dirty.insert(DirtyFlag::Paint);

    let request = ReflowRequest {
        script_id: Some(7),
        label: "script:7".to_owned(),
        dirty,
        reason: "script-complete".to_owned(),
    };

    let mut engine = InvalidationEngine::default();
    engine.consume_reflow_request(&request);
    let plan = engine.flush_plan();

    assert_eq!(plan.input_count, 1);
    assert!(plan.restyle_document);
    assert!(plan.rebuild_layout_tree);
    assert!(plan.rebuild_paint_plan);
    assert!(plan.full_viewport_paint);
    assert_eq!(plan.rebuild_hint, RebuildHint::FullPipeline);
    assert_eq!(engine.metrics().reflow_requests_consumed, 1);
}

#[test]
fn cssom_paint_mutation_becomes_paint_plan_rebuild() {
    let mutations = vec![CssStyleMutation {
        node: Some(DomNodeRef(10)),
        property: "color".to_owned(),
        value: Some("red".to_owned()),
        invalidation: StyleInvalidationKind::Paint,
    }];

    let inputs = collect_cssom_mutation_invalidations(&mutations);

    assert_eq!(inputs.len(), 1);
    assert_eq!(inputs[0].scope, InvalidationScope::Node(DomNodeRef(10)));
    assert_eq!(inputs[0].impact.paint, PaintInvalidationKind::Node);

    let mut engine = InvalidationEngine::default();
    engine.submit_many(inputs);
    let plan = engine.flush_plan();

    assert_eq!(plan.paint_nodes, vec![DomNodeRef(10)]);
    assert!(plan.rebuild_paint_plan);
    assert!(!plan.rebuild_layout_tree);
}

#[test]
fn cssom_layout_mutation_becomes_layout_plan() {
    let mutations = vec![CssStyleMutation {
        node: Some(DomNodeRef(11)),
        property: "width".to_owned(),
        value: Some("500px".to_owned()),
        invalidation: StyleInvalidationKind::Layout,
    }];

    let mut engine = InvalidationEngine::default();
    engine.consume_cssom_mutations(&mutations);
    let plan = engine.flush_plan();

    assert_eq!(plan.layout_nodes, vec![DomNodeRef(11)]);
    assert_eq!(plan.priority, InvalidationPriority::High);
    assert!(plan.rebuild_paint_plan);
    assert_eq!(engine.metrics().cssom_mutations_consumed, 1);
}

#[test]
fn selector_recalc_mutation_upgrades_to_layout_tree() {
    let mutations = vec![CssStyleMutation {
        node: Some(DomNodeRef(12)),
        property: "class".to_owned(),
        value: Some("active".to_owned()),
        invalidation: StyleInvalidationKind::StyleRecalc,
    }];

    let mut engine = InvalidationEngine::default();
    engine.consume_cssom_mutations(&mutations);
    let plan = engine.flush_plan();

    assert_eq!(plan.style_nodes, vec![DomNodeRef(12)]);
    assert_eq!(plan.layout_nodes, vec![DomNodeRef(12)]);
    assert!(plan.rebuild_layout_tree);
    assert!(plan.rebuild_paint_plan);
}

#[test]
fn dom_snapshots_create_subtree_invalidations() {
    let snapshots = vec![DomNodeSnapshot {
        id: DomNodeRef(1),
        parent: None,
        children: vec![DomNodeRef(2)],
        node_type: DomNodeType::Element,
        tag_name: "div".to_owned(),
        text: String::new(),
        attributes: Default::default(),
    }];

    let inputs = collect_dom_snapshot_invalidations(&snapshots);

    assert_eq!(inputs.len(), 1);
    assert_eq!(inputs[0].scope, InvalidationScope::Subtree(DomNodeRef(1)));
    assert_eq!(inputs[0].impact.style, StyleInvalidationKindLite::SelectorMatch);
}

#[test]
fn engine_coalesces_multiple_node_inputs_into_document_when_unrelated() {
    let mut engine = InvalidationEngine::default();

    engine.submit(InvalidationInput {
        source: InvalidationSource::Cssom,
        priority: InvalidationPriority::Normal,
        scope: InvalidationScope::Node(DomNodeRef(1)),
        impact: InvalidationImpact::paint(),
        rect: None,
        reason: InvalidationReason::new("a", "a"),
    });

    engine.submit(InvalidationInput {
        source: InvalidationSource::Cssom,
        priority: InvalidationPriority::High,
        scope: InvalidationScope::Node(DomNodeRef(2)),
        impact: InvalidationImpact::layout_paint(),
        rect: None,
        reason: InvalidationReason::new("b", "b"),
    });

    let plan = engine.flush_plan();

    assert_eq!(plan.priority, InvalidationPriority::High);
    assert!(plan.rebuild_layout_tree);
    assert!(plan.full_viewport_paint);
    assert!(plan.reasons.contains(&"a".to_owned()));
    assert!(plan.reasons.contains(&"b".to_owned()));
}

#[test]
fn invalidation_hooks_receive_script_pipeline_reflow_requests() {
    let loader = ResearchScriptResourceLoader::default();
    let mut hooks = ResearchInvalidationHooks::new(InvalidationEngine::default());
    let mut executor = QuietExecutor;

    let run = run_research_script_pipeline(
        &mut executor,
        vec![ScriptDescriptor::inline(1, r#"console.log("ok");"#)],
        loader,
        &mut hooks,
        ScriptPipelineConfig::default(),
    )
    .expect("pipeline");

    assert_eq!(run.metrics.scripts_executed, 1);
    assert!(hooks.engine().queued_len() >= 1);

    let mut engine = hooks.into_engine();
    let plan = engine.flush_plan();
    assert!(plan.rebuild_paint_plan);
    assert!(plan.rebuild_layout_tree || plan.full_viewport_paint);
}

#[test]
fn impact_merge_takes_the_higher_part() {
    let m = InvalidationImpact::paint().merge(InvalidationImpact::layout_paint());
    assert_eq!(m.style, StyleInvalidationKindLite::Inline);
    assert_eq!(m.layout, LayoutInvalidationKind::Node);
    assert_eq!(m.paint, PaintInvalidationKind::Subtree);
    assert_eq!(m.rebuild, RebuildHint::PaintPlan);
    let a = InvalidationImpact::style_paint();
    assert_eq!(a.merge(InvalidationImpact::none()), a);
    assert_eq!(a.merge(a), a);
    assert_eq!(
        a.merge(InvalidationImpact::full_pipeline()),
        InvalidationImpact::full_pipeline()
    );
    assert_eq!(
        InvalidationImpact::layout_paint().merge(a),
        a.merge(InvalidationImpact::layout_paint())
    );
}

#[test]
fn empty_flush_plans_nothing() {
    let mut engine = InvalidationEngine::default();
    let plan = engine.flush_plan();
    assert_eq!(plan.input_count, 0);
    assert_eq!(plan.priority, InvalidationPriority::Low);
    assert_eq!(plan.rebuild_hint, RebuildHint::Nothing);
    assert!(!plan.full_viewport_paint);
    assert!(plan.dirty_rects.is_empty());
    assert_eq!(engine.metrics().plans_produced, 1);
}

#[test]
fn coalescer_sorts_reasons_and_keeps_rects() {
    let c = InvalidationCoalescer::new(InvalidationConfig::default());
    let mut a = input(InvalidationScope::Node(DomNodeRef(3)), InvalidationImpact::paint(), "zeta");
    a.rect = Some(InvalidationRectRef(5));
    let b = input(InvalidationScope::Subtree(DomNodeRef(3)), InvalidationImpact::paint(), "alpha");
    let mut d = input(InvalidationScope::Node(DomNodeRef(3)), InvalidationImpact::paint(), "zeta");
    d.rect = Some(InvalidationRectRef(9));
    let batch = c.coalesce(&[a, b, d]);
    assert_eq!(batch.reasons, vec!["alpha".to_string(), "zeta".to_string()]);
    assert_eq!(batch.rects, vec![InvalidationRectRef(5), InvalidationRectRef(9)]);
    assert_eq!(batch.scope, Some(InvalidationScope::Subtree(DomNodeRef(3))));
    assert_eq!(batch.priority, Some(InvalidationPriority::Normal));
    assert!(!batch.is_empty());
}

#[test]
fn plan_lists_rects_or_viewport() {
    let mut engine = InvalidationEngine::default();
    let mut a = input(InvalidationScope::Node(DomNodeRef(4)), InvalidationImpact::paint(), "p");
    a.rect = Some(InvalidationRectRef(1));
    engine.submit(a);
    let plan = engine.flush_plan();
    assert_eq!(plan.dirty_rects, vec![DirtyRect::Rect(InvalidationRectRef(1))]);
    assert!(!plan.full_viewport_paint);
    assert_eq!(plan.rebuild_hint, RebuildHint::PaintPlan);

    engine.submit(input(InvalidationScope::Document, InvalidationImpact::paint(), "d"));
    let plan = engine.flush_plan();
    assert_eq!(plan.dirty_rects, vec![DirtyRect::Viewport]);
    assert!(plan.restyle_document);
}

#[test]
fn unknown_scope_follows_config() {
    let mut config = InvalidationConfig::default();
    let mut engine = InvalidationEngine::new(config);
    engine.submit(input(InvalidationScope::Unknown, InvalidationImpact::paint(), "u"));
    let plan = engine.flush_plan();
    assert!(plan.full_viewport_paint);

    config.unknown_scope_is_document = false;
    let mut engine = InvalidationEngine::new(config);
    engine.submit(input(InvalidationScope::Unknown, InvalidationImpact::paint(), "u"));
    let plan = engine.flush_plan();
    assert!(!plan.full_viewport_paint);
    assert!(plan.rebuild_paint_plan);
    assert!(plan.paint_nodes.is_empty());
}

#[test]
fn document_scope_kept_when_not_coalescing() {
    let mut config = InvalidationConfig::default();
    config.coalesce_document_scope = false;
    let c = InvalidationCoalescer::new(config);
    let batch = c.coalesce(&[
        input(InvalidationScope::Node(DomNodeRef(1)), InvalidationImpact::paint(), "a"),
        input(InvalidationScope::Document, InvalidationImpact::paint(), "b"),
    ]);
    assert_eq!(batch.scope, Some(InvalidationScope::Node(DomNodeRef(1))));
    let c = InvalidationCoalescer::new(InvalidationConfig::default());
    let batch = c.coalesce(&[
        input(InvalidationScope::Node(DomNodeRef(1)), InvalidationImpact::paint(), "a"),
        input(InvalidationScope::Viewport, InvalidationImpact::paint(), "b"),
    ]);
    assert_eq!(batch.scope, Some(InvalidationScope::Viewport));
}

#[test]
fn text_and_script_snapshots() {
    let text = DomNodeSnapshot {
        id: DomNodeRef(8),
        parent: Some(DomNodeRef(2)),
        children: vec![],
        node_type: DomNodeType::Text,
        tag_name: String::new(),
        text: "hi".to_owned(),
        attributes: vec![],
    };
    let script = DomNodeSnapshot {
        id: DomNodeRef(9),
        parent: None,
        children: vec![],
        node_type: DomNodeType::Element,
        tag_name: "SCRIPT".to_owned(),
        text: String::new(),
        attributes: vec![],
    };
    let inputs = collect_dom_snapshot_invalidations(&[text, script]);
    assert_eq!(inputs.len(), 1);
    assert_eq!(inputs[0].scope, InvalidationScope::Subtree(DomNodeRef(2)));
    assert_eq!(inputs[0].impact.layout, LayoutInvalidationKind::IntrinsicSize);
    assert_eq!(inputs[0].reason.code, "dom-text");

    let mut engine = InvalidationEngine::default();
    engine.consume_dom_snapshots(&[]);
    assert_eq!(engine.queued_len(), 0);
}

#[test]
fn reflow_input_and_mutation_details() {
    let mut dirty = DirtyFlags::default();
    dirty.insert(DirtyFlag::Paint);
    let r = ReflowRequest {
        script_id: None,
        label: "x".to_owned(),
        dirty,
        reason: "because".to_owned(),
    };
    let i = input_from_reflow_request(&r);
    assert_eq!(i.priority, InvalidationPriority::High);
    assert_eq!(i.scope, InvalidationScope::Document);
    assert_eq!(i.impact.paint, PaintInvalidationKind::PaintPlan);
    assert_eq!(i.impact.layout, LayoutInvalidationKind::Nothing);
    assert_eq!(i.reason.code, "script-reflow");
    assert_eq!(i.reason.detail, "because");

    let m = collect_cssom_mutation_invalidations(&[CssStyleMutation {
        node: None,
        property: "insertRule".to_owned(),
        value: None,
        invalidation: StyleInvalidationKind::StyleRecalc,
    }]);
    assert_eq!(m[0].scope, InvalidationScope::Document);
    assert_eq!(m[0].reason.detail, "insertRule changed");

    let mut engine = InvalidationEngine::default();
    apply_reflow_request_to_invalidation_engine(&mut engine, &r);
    assert_eq!(engine.queued_len(), 1);
    engine.clear();
    assert_eq!(engine.queued_len(), 0);
}

#[test]
fn events_are_capped() {
    let mut config = InvalidationConfig::default();
    config.max_events = 2;
    let mut engine = InvalidationEngine::new(config);
    for code in ["a", "b", "c"] {
        engine.submit(input(InvalidationScope::Document, InvalidationImpact::paint(), code));
    }
    let events = engine.events();
    assert_eq!(events.len(), 2);
    match &events[1] {
        InvalidationEvent::InputSubmitted(i) => assert_eq!(i.reason.code, "c"),
        _ => panic!("expected a submitted input"),
    }
    assert_eq!(engine.metrics().inputs_submitted, 3);
    engine.flush_plan();
    let events = engine.events();
    assert!(matches!(events[0], InvalidationEvent::BatchCoalesced(_)));
    assert!(matches!(events[1], InvalidationEvent::PlanProduced(_)));
}

#[test]
fn hooks_turn_lifecycle_into_paint_work() {
    let mut hooks = ResearchInvalidationHooks::new(InvalidationEngine::default());
    hooks.dom_content_loaded();
    hooks.load();
    assert_eq!(hooks.engine().queued_len(), 2);
    let mut engine = hooks.into_engine();
    let plan = engine.flush_plan();
    assert!(plan.rebuild_paint_plan);
    assert!(plan.full_viewport_paint);
    assert!(!plan.rebuild_layout_tree);
    assert_eq!(plan.reasons, vec!["script-reflow".to_string()]);
}
