use syljs::ast::ProgramKind;
use syljs::benchmark::{
    benchmark_aggregate, benchmark_routes, benchmark_script_summary, build_youtube_like_script,
    console_records, manifest_body, synthetic_segment_payload, BenchmarkConfig,
    BenchmarkMeasurements, BenchmarkProfile, BenchmarkScenario,
};

#[test]
fn benchmark_script_generation_is_deterministic_and_contains_core_apis() {
    let config = BenchmarkConfig::for_profile(BenchmarkProfile::Smoke);
    let script = build_youtube_like_script(&config);

    assert!(script.contains("new HTMLVideoElement()"));
    assert!(script.contains("new HTMLCanvasElement()"));
    assert!(script.contains("new MediaSource()"));
    assert!(script.contains("new Worker"));
    assert!(script.contains("fetch(\"/api/player/manifest\")"));
    assert!(script.contains("document.styleSheets[0].insertRule"));
    assert!(script.contains("setInterval"));
}

#[test]
fn benchmark_profile_scaling_changes_workload_size() {
    let smoke = BenchmarkConfig::for_profile(BenchmarkProfile::Smoke);
    let standard = BenchmarkConfig::for_profile(BenchmarkProfile::Standard);
    let stress = BenchmarkConfig::for_profile(BenchmarkProfile::Stress);

    assert!(smoke.frame_count < standard.frame_count);
    assert!(standard.frame_count < stress.frame_count);
    assert!(smoke.segment_count < standard.segment_count);
    assert!(standard.segment_count < stress.segment_count);
    assert!(smoke.recommendation_count < standard.recommendation_count);
    assert!(standard.recommendation_count < stress.recommendation_count);
}

#[test]
fn benchmark_sanitizes_extreme_values() {
    let mut config = BenchmarkConfig::for_profile(BenchmarkProfile::Smoke);
    config.frame_count = 0;
    config.segment_count = 0;
    config.worker_message_count = 1_000_000;
    config.recommendation_count = 1_000_000;
    config.style_mutation_count = 1_000_000;
    config.instruction_budget = 1;

    let sanitized = config.sanitized();

    assert_eq!(sanitized.frame_count, 1);
    assert_eq!(sanitized.segment_count, 1);
    assert_eq!(sanitized.worker_message_count, 10_000);
    assert_eq!(sanitized.recommendation_count, 5_000);
    assert_eq!(sanitized.style_mutation_count, 10_000);
    assert_eq!(sanitized.instruction_budget, 1_000);
}

#[test]
fn script_uses_sanitized_counts() {
    let mut config = BenchmarkConfig::for_profile(BenchmarkProfile::Smoke);
    config.frame_count = 0;
    config.timer_interval_ms = 99_999;
    let script = build_youtube_like_script(&config);
    assert!(script.contains("if (frame >= 1) {"));
    assert!(script.contains("}, 1000);"));
    assert_eq!(script, build_youtube_like_script(&config));
    assert!(script.ends_with("console.log(\"benchmark-start\", document.title);\n"));
}

#[test]
fn defaults_and_configs() {
    assert_eq!(BenchmarkProfile::default(), BenchmarkProfile::Standard);
    let scenario = BenchmarkScenario::default();
    assert_eq!(scenario.id, "synthetic-tube-watch");
    assert_eq!(scenario.title, "SyntheticTube watch page");
    let config = BenchmarkConfig::default();
    assert_eq!(config, BenchmarkConfig::for_profile(BenchmarkProfile::Standard));
    assert_eq!(config.vm_config().instruction_budget, 750_000);
    assert_eq!(config.event_loop_config().max_timer_advances, 10_000);
    assert_eq!(config.clone().sanitized(), config);
}

#[test]
fn routes_serve_manifest_and_segments() {
    let config = BenchmarkConfig::for_profile(BenchmarkProfile::Smoke);
    assert_eq!(manifest_body(&config), "manifest:segments=2,frames=4,workers=2");
    let payload = synthetic_segment_payload(3);
    assert!(payload.starts_with("sylphos-segment:3:frame0;frame1;"));
    assert!(payload.ends_with("frame63;"));
    let routes = benchmark_routes(&config);
    assert_eq!(routes.len(), 3);
    assert_eq!(routes[0].path, "/api/player/manifest");
    assert_eq!(routes[2].path, "/media/seg-1");
    assert_eq!(routes[2].url, "https://synthetic.tube/media/seg-1");
    assert_eq!(routes[2].body, synthetic_segment_payload(1));
}

#[test]
fn run_records_summarize_and_aggregate() {
    let config = BenchmarkConfig::for_profile(BenchmarkProfile::Smoke);
    let summary = benchmark_script_summary(&config, "a\nbc");
    assert_eq!(summary.kind, ProgramKind::Script);
    assert_eq!(summary.bytes, 4);
    assert_eq!(summary.lines, 2);
    assert_eq!(summary.expected_frames, 4);
    let records = console_records(&vec!["x".to_owned(), "y".to_owned()]);
    assert_eq!(records[1].index, 1);
    assert_eq!(records[1].line, "y");

    let m = BenchmarkMeasurements {
        wall_time_us: 5,
        vm_instructions: 100,
        vm_calls: 1,
        vm_native_calls: 2,
        vm_bytecode_calls: 3,
        event_loop_jobs: 4,
        microtasks_executed: 5,
        promise_reactions_executed: 6,
        timers_fired: 7,
        hit_limit: false,
        dom_text_mutations: 1,
        dom_attribute_mutations: 1,
        dom_value_mutations: 1,
        dom_structure_mutations: 1,
        dom_queries: 2,
        cssom_inline_writes: 2,
        cssom_inline_removals: 0,
        cssom_rules_inserted: 3,
        cssom_rules_deleted: 0,
        computed_style_reads: 1,
        fetch_calls: 3,
        storage_writes: 2,
        history_pushes: 1,
        history_replaces: 1,
        media_buffer_appends: 2,
        media_events: 4,
        canvas_commands_recorded: 40,
        messages_to_worker: u64::MAX,
        messages_to_main: 1,
    };
    let a = benchmark_aggregate(&m, records.len());
    assert_eq!(a.dom_mutations, 4);
    assert_eq!(a.cssom_mutations, 5);
    assert_eq!(a.history_mutations, 2);
    assert_eq!(a.worker_messages_total, u64::MAX);
    assert_eq!(a.console_lines, 2);
}
