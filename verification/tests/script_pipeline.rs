use syljs::event_loop::{EventLoopMetrics, EventLoopRunSummary};
use syljs::script_pipeline::{
    current_script, run_research_script_pipeline, AsyncSchedulingPolicy, CurrentScript, DirtyFlag,
    DirtyFlags, PipelineDocumentPhase, PipelineEvent, ResearchReflowHooks,
    ResearchScriptResourceLoader, ScriptDescriptor, ScriptExecutor, ScriptKind, ScriptLoadMode,
    ScriptPipeline, ScriptPipelineConfig, ScriptResourceLoader, ScriptSource,
};

/// A stand-in engine: it records what it runs, fails on sources that
/// contain `throw`, and prints the string literal of each `console.log("..")`.
#[derive(Default)]
struct StubExecutor {
    executed: Vec<String>,
    current: Vec<Option<String>>,
}

fn console_lines(source: &str) -> Vec<String> {
    let mut lines = Vec::new();
    let mut rest = source;
    while let Some(at) = rest.find("console.log(\"") {
        let after = &rest[at + "console.log(\"".len()..];
        match after.find('"') {
            Some(end) => {
                lines.push(after[..end].to_owned());
                rest = &after[end..];
            }
            None => break,
        }
    }
    lines
}

impl ScriptExecutor for StubExecutor {
    // A specification-only view of the engine, never called at run time.
    fn executed(&self) -> vstd::seq::Seq<vstd::seq::Seq<char>> {
        unreachable!()
    }

    // A specification-only view of the engine, never called at run time.
    fn returned(
        &self,
    ) -> vstd::seq::Seq<Result<Option<syljs::event_loop::SummaryView>, vstd::seq::Seq<char>>> {
        unreachable!()
    }

    fn set_current_script(&mut self, script: Option<&CurrentScript>) {
        self.current.push(script.map(|c| c.id.clone()));
    }

    fn execute(
        &mut self,
        _kind: ScriptKind,
        source: &str,
        drain_after: bool,
    ) -> Result<Option<EventLoopRunSummary>, String> {
        self.executed.push(source.to_owned());
        if source.contains("throw") {
            return Err("Uncaught Error: boom".to_owned());
        }
        if drain_after {
            Ok(Some(EventLoopRunSummary {
                jobs_executed: 0,
                hit_limit: false,
                virtual_time_ms: 0,
                event_loop: EventLoopMetrics::default(),
                console: console_lines(source),
            }))
        } else {
            Ok(None)
        }
    }
}

#[test]
fn missing_external_script_records_failure_when_continue_on_error() {
    let loader = ResearchScriptResourceLoader::default();
    let mut hooks = ResearchReflowHooks::default();
    let mut scheduled = StubExecutor::default();

    let run = run_research_script_pipeline(
        &mut scheduled,
        vec![
            ScriptDescriptor::external(1, "/missing.js", ScriptLoadMode::ParserBlocking),
            ScriptDescriptor::inline(2, r#"console.log("still-runs");"#),
        ],
        loader,
        &mut hooks,
        ScriptPipelineConfig::default(),
    )
    .expect("run");

    assert_eq!(run.metrics.script_failures, 1);
    assert_eq!(run.metrics.scripts_executed, 1);
    assert_eq!(run.failures.len(), 1);
    assert_eq!(hooks.failures().len(), 1);
    assert_eq!(run.last_summary.as_ref().unwrap().console, vec!["still-runs"]);
}

#[test]
fn stop_on_error_returns_error() {
    let loader = ResearchScriptResourceLoader::default();
    let mut hooks = ResearchReflowHooks::default();
    let mut scheduled = StubExecutor::default();

    let mut config = ScriptPipelineConfig::default();
    config.continue_on_error = false;

    let result = run_research_script_pipeline(
        &mut scheduled,
        vec![ScriptDescriptor::external(
            1,
            "/missing.js",
            ScriptLoadMode::ParserBlocking,
        )],
        loader,
        &mut hooks,
        config,
    );

    assert!(result.is_err());
}

#[test]
fn stop_on_error_passes_the_loader_message_on() {
    let mut scheduled = StubExecutor::default();
    let mut hooks = ResearchReflowHooks::default();
    let mut config = ScriptPipelineConfig::default();
    config.continue_on_error = false;
    let result = run_research_script_pipeline(
        &mut scheduled,
        vec![
            ScriptDescriptor::external(1, "/missing.js", ScriptLoadMode::ParserBlocking),
            ScriptDescriptor::inline(2, "console.log(\"never\");"),
        ],
        ResearchScriptResourceLoader::default(),
        &mut hooks,
        config,
    );
    assert_eq!(result.unwrap_err(), "script resource not found: /missing.js");
    assert!(scheduled.executed.is_empty());
    assert_eq!(hooks.failures()[0].error, "script resource not found: /missing.js");
}

#[test]
fn descriptors_carry_labels_and_modes() {
    let inline = ScriptDescriptor::inline(7, "x");
    assert_eq!(inline.label, "inline:7");
    assert_eq!(inline.mode, ScriptLoadMode::ParserBlocking);
    assert!(inline.render_blocking);
    assert_eq!(inline.source.label(), "inline");

    let deferred = ScriptDescriptor::external(3, "/a.js", ScriptLoadMode::Defer);
    assert_eq!(deferred.label, "/a.js");
    assert!(!deferred.render_blocking);
    assert_eq!(deferred.source, ScriptSource::External { url: "/a.js".to_owned() });
    assert_eq!(deferred.source.label(), "/a.js");
    let blocking = ScriptDescriptor::external(4, "/b.js", ScriptLoadMode::ParserBlocking);
    assert!(blocking.render_blocking);
}

#[test]
fn dirty_flags_form_an_ordered_set() {
    let script = DirtyFlags::conservative_script();
    assert_eq!(
        script.flags(),
        vec![DirtyFlag::Dom, DirtyFlag::Style, DirtyFlag::Layout, DirtyFlag::Paint]
    );
    assert!(!script.contains(DirtyFlag::Lifecycle));
    let lifecycle = DirtyFlags::lifecycle();
    assert_eq!(lifecycle.flags(), vec![DirtyFlag::Paint, DirtyFlag::Lifecycle]);

    let mut flags = DirtyFlags::default();
    assert!(flags.is_empty());
    flags.insert(DirtyFlag::Layout);
    flags.insert(DirtyFlag::Layout);
    assert!(!flags.is_empty());
    assert_eq!(flags.flags(), vec![DirtyFlag::Layout]);
}

#[test]
fn research_loader_serves_registered_scripts() {
    let mut loader = ResearchScriptResourceLoader::default();
    loader.register_script("/b.js", "b");
    loader.register_script("/a.js", "a");
    loader.register_script("/b.js", "b2");
    assert_eq!(loader.urls(), vec!["/a.js".to_owned(), "/b.js".to_owned()]);
    assert_eq!(loader.load_script("/b.js"), Ok("b2".to_owned()));
    assert_eq!(
        loader.load_script("/c.js"),
        Err("script resource not found: /c.js".to_owned())
    );
}

#[test]
fn current_script_describes_the_running_script() {
    let inline = ScriptDescriptor::inline(1, "x");
    let c = current_script(&inline);
    assert_eq!(c.id, "syljs-script-1");
    assert_eq!(c.src, "");
    assert!(!c.is_async);
    assert!(!c.defer);
    assert_eq!(c.script_type, "text/javascript");
    assert!(c.parser_inserted);

    let a = ScriptDescriptor::external(12, "/async.js", ScriptLoadMode::Async);
    let c = current_script(&a);
    assert_eq!(c.id, "syljs-script-12");
    assert_eq!(c.src, "/async.js");
    assert!(c.is_async);
}

#[test]
fn defer_scripts_run_after_parser_blocking_in_order() {
    let mut loader = ResearchScriptResourceLoader::default();
    loader.register_script("/d1.js", "console.log(\"d1\");");
    loader.register_script("/d2.js", "console.log(\"d2\");");
    let mut hooks = ResearchReflowHooks::default();
    let mut scheduled = StubExecutor::default();
    let run = run_research_script_pipeline(
        &mut scheduled,
        vec![
            ScriptDescriptor::external(1, "/d1.js", ScriptLoadMode::Defer),
            ScriptDescriptor::inline(2, "console.log(\"parser\");"),
            ScriptDescriptor::external(3, "/d2.js", ScriptLoadMode::Defer),
        ],
        loader,
        &mut hooks,
        ScriptPipelineConfig::default(),
    )
    .expect("run");
    assert_eq!(hooks.before_script_ids(), vec![2, 1, 3]);
    assert_eq!(hooks.after_script_ids(), vec![2, 1, 3]);
    assert_eq!(run.metrics.parser_blocking_scripts, 1);
    assert_eq!(run.metrics.defer_scripts_queued, 2);
    assert_eq!(run.metrics.defer_scripts_executed, 2);
    assert_eq!(run.metrics.external_fetches, 2);
    assert_eq!(
        run.last_summary.as_ref().unwrap().console,
        vec!["parser".to_owned(), "d1".to_owned(), "d2".to_owned()]
    );
    assert_eq!(run.scripts.len(), 3);
    assert_eq!(run.scripts[1].source_bytes, "console.log(\"d1\");".len());
    assert_eq!(run.phase, PipelineDocumentPhase::Complete);
    assert_eq!(hooks.dom_content_loaded_count(), 1);
    assert_eq!(hooks.load_count(), 1);
    assert_eq!(
        scheduled.current,
        vec![
            Some("syljs-script-2".to_owned()),
            None,
            Some("syljs-script-1".to_owned()),
            None,
            Some("syljs-script-3".to_owned()),
            None,
        ]
    );
}

#[test]
fn async_policies_choose_when_async_scripts_run() {
    for (policy, expected) in [
        (AsyncSchedulingPolicy::AsSoonAsDiscovered, vec![1, 2, 3]),
        (AsyncSchedulingPolicy::AfterParsingBeforeDefer, vec![2, 1, 3]),
        (AsyncSchedulingPolicy::AfterDomContentLoaded, vec![2, 3, 1]),
    ] {
        let mut loader = ResearchScriptResourceLoader::default();
        loader.register_script("/async.js", "a");
        loader.register_script("/defer.js", "d");
        let mut hooks = ResearchReflowHooks::default();
        let mut scheduled = StubExecutor::default();
        let mut config = ScriptPipelineConfig::default();
        config.async_policy = policy;
        let run = run_research_script_pipeline(
            &mut scheduled,
            vec![
                ScriptDescriptor::external(1, "/async.js", ScriptLoadMode::Async),
                ScriptDescriptor::inline(2, "p"),
                ScriptDescriptor::external(3, "/defer.js", ScriptLoadMode::Defer),
            ],
            loader,
            &mut hooks,
            config,
        )
        .expect("run");
        assert_eq!(hooks.before_script_ids(), expected);
        assert_eq!(run.metrics.async_scripts_queued, 1);
        assert_eq!(run.metrics.async_scripts_executed, 1);
    }
}

#[test]
fn every_discovered_script_runs_or_fails() {
    let mut loader = ResearchScriptResourceLoader::default();
    loader.register_script("/ok.js", "fine");
    let mut hooks = ResearchReflowHooks::default();
    let mut scheduled = StubExecutor::default();
    let run = run_research_script_pipeline(
        &mut scheduled,
        vec![
            ScriptDescriptor::inline(1, "throw new Error()"),
            ScriptDescriptor::external(2, "/ok.js", ScriptLoadMode::Async),
            ScriptDescriptor::external(3, "/gone.js", ScriptLoadMode::Defer),
            ScriptDescriptor::inline(4, "fine"),
        ],
        loader,
        &mut hooks,
        ScriptPipelineConfig::default(),
    )
    .expect("run");
    assert_eq!(run.metrics.scripts_discovered, 4);
    assert_eq!(run.metrics.scripts_executed + run.metrics.script_failures, 4);
    assert_eq!(run.metrics.script_failures, 2);
    assert_eq!(run.failures[0].error, "Uncaught Error: boom");
    assert_eq!(run.failures[1].label, "/gone.js");
}

#[test]
fn reflow_requests_follow_scripts_and_lifecycle() {
    let mut hooks = ResearchReflowHooks::default();
    let mut scheduled = StubExecutor::default();
    let run = run_research_script_pipeline(
        &mut scheduled,
        vec![ScriptDescriptor::inline(1, "x")],
        ResearchScriptResourceLoader::default(),
        &mut hooks,
        ScriptPipelineConfig::default(),
    )
    .expect("run");
    let requests = hooks.reflow_requests();
    assert_eq!(requests.len(), 3);
    assert_eq!(requests[0].script_id, Some(1));
    assert_eq!(requests[0].label, "script:1");
    assert_eq!(requests[0].reason, "script-complete:inline:1");
    assert!(requests[0].dirty.contains(DirtyFlag::Layout));
    assert_eq!(requests[1].label, "lifecycle");
    assert_eq!(requests[1].reason, "DOMContentLoaded");
    assert_eq!(requests[2].reason, "load");
    assert_eq!(run.metrics.reflow_requests, 3);
    assert_eq!(
        run.events.last(),
        Some(&PipelineEvent::ReflowRequested(requests[2].clone()))
    );
}

#[test]
fn pipeline_steps_move_through_the_phases() {
    let mut hooks = ResearchReflowHooks::default();
    let mut scheduled = StubExecutor::default();
    let mut pipeline =
        ScriptPipeline::new(ScriptPipelineConfig::default(), ResearchScriptResourceLoader::default());
    assert_eq!(pipeline.phase(), PipelineDocumentPhase::Loading);
    pipeline
        .discover_script(&mut scheduled, &mut hooks, ScriptDescriptor::inline(1, "x"))
        .expect("discover");
    assert_eq!(pipeline.metrics().scripts_discovered, 1);
    assert_eq!(
        pipeline.events()[0],
        PipelineEvent::ScriptDiscovered { script_id: 1, label: "inline:1".to_owned() }
    );
    pipeline.finish_parsing(&mut scheduled, &mut hooks).expect("parse");
    assert_eq!(pipeline.phase(), PipelineDocumentPhase::DomContentLoaded);
    pipeline.finish_document(&mut hooks);
    assert_eq!(pipeline.phase(), PipelineDocumentPhase::Complete);
    let run = pipeline.into_run();
    assert_eq!(run.metrics.load_events, 1);
    assert_eq!(run.metrics.dom_content_loaded_events, 1);
}

// The three tests below drive the pipeline with the recording stand-in
// engine: what the pipeline decides (order, counters, hooks, the exact text
// handed to the engine) is checked; document effects need a real engine.

#[test]
fn parser_blocking_script_executes_immediately_and_requests_reflow() {
    let loader = ResearchScriptResourceLoader::default();
    let mut hooks = ResearchReflowHooks::default();
    let mut scheduled = StubExecutor::default();
    let source = r#"
            document.title = "After";
            const node = document.createElement("div");
            node.id = "created";
            document.body.appendChild(node);
            console.log(document.currentScript.id, document.title);
            "#;

    let run = run_research_script_pipeline(
        &mut scheduled,
        vec![ScriptDescriptor::inline(1, source)],
        loader,
        &mut hooks,
        ScriptPipelineConfig::default(),
    )
    .expect("run");

    assert_eq!(scheduled.executed, vec![source.to_owned()]);
    assert_eq!(scheduled.current, vec![Some("syljs-script-1".to_owned()), None]);
    assert_eq!(run.phase, PipelineDocumentPhase::Complete);
    assert_eq!(run.metrics.parser_blocking_scripts, 1);
    assert_eq!(run.metrics.current_script_sets, 1);
    assert_eq!(run.metrics.current_script_clears, 1);
    assert_eq!(hooks.before_script_ids(), vec![1]);
    assert_eq!(hooks.after_script_ids(), vec![1]);
    assert!(hooks
        .reflow_requests()
        .iter()
        .any(|request| request.dirty.contains(DirtyFlag::Layout)));
}

#[test]
fn defer_scripts_wait_until_after_parser_blocking_scripts() {
    let mut loader = ResearchScriptResourceLoader::default();
    let deferred = r#"
        console.log("defer", document.title);
        document.title = document.title + "-defer";
        "#;
    loader.register_script("/defer.js", deferred);
    let mut hooks = ResearchReflowHooks::default();
    let mut scheduled = StubExecutor::default();
    let parser = r#"document.title = "parser"; console.log("parser");"#;

    let run = run_research_script_pipeline(
        &mut scheduled,
        vec![
            ScriptDescriptor::inline(1, parser),
            ScriptDescriptor::external(2, "/defer.js", ScriptLoadMode::Defer),
        ],
        loader,
        &mut hooks,
        ScriptPipelineConfig::default(),
    )
    .expect("run");

    assert_eq!(scheduled.executed, vec![parser.to_owned(), deferred.to_owned()]);
    assert_eq!(run.metrics.parser_blocking_scripts, 1);
    assert_eq!(run.metrics.defer_scripts_queued, 1);
    assert_eq!(run.metrics.defer_scripts_executed, 1);
    assert_eq!(run.last_summary.as_ref().unwrap().console[0], "parser");
}

#[test]
fn async_policy_after_dom_content_loaded_runs_async_late() {
    let mut loader = ResearchScriptResourceLoader::default();
    let late = r#"
        document.title = document.title + "-async";
        console.log("async", document.title);
        "#;
    loader.register_script("/async.js", late);
    let mut hooks = ResearchReflowHooks::default();
    let mut scheduled = StubExecutor::default();
    let parser = r#"document.title = "parser"; console.log("parser");"#;

    let mut config = ScriptPipelineConfig::default();
    config.async_policy = AsyncSchedulingPolicy::AfterDomContentLoaded;

    let run = run_research_script_pipeline(
        &mut scheduled,
        vec![
            ScriptDescriptor::external(1, "/async.js", ScriptLoadMode::Async),
            ScriptDescriptor::inline(2, parser),
        ],
        loader,
        &mut hooks,
        config,
    )
    .expect("run");

    assert_eq!(scheduled.executed, vec![parser.to_owned(), late.to_owned()]);
    assert_eq!(run.metrics.async_scripts_queued, 1);
    assert_eq!(run.metrics.async_scripts_executed, 1);
    assert_eq!(hooks.dom_content_loaded_count(), 1);
    assert_eq!(hooks.load_count(), 1);
}
