use syljs::site_compat::{
    build_site_compatibility_script, run_site_compatibility_harness, score_suite, site_metrics,
    SiteCompatibilityHarnessConfig, SiteCompatibilityMetrics, SiteCompatibilityProfile,
    SiteCompatibilityRunner, SiteCompatibilitySignal, SiteCompatibilitySuite, SuiteMeasurements,
};

/// A stand-in engine that estimates counters from the script text: every
/// `fetch(` is a fetch, every `postMessage(` a worker message, every
/// `console.log(` a console line, and so on.
#[derive(Default)]
struct TextCountingRunner {
    scripts: Vec<String>,
    fail_on: Option<SiteCompatibilitySuite>,
}

fn occurrences(text: &str, needle: &str) -> u64 {
    text.matches(needle).count() as u64
}

impl SiteCompatibilityRunner for TextCountingRunner {
    // A specification-only view of the engine, never called at run time.
    fn ran(&self) -> vstd::seq::Seq<(SiteCompatibilitySuite, vstd::seq::Seq<char>)> {
        unreachable!()
    }

    // A specification-only view of the engine, never called at run time.
    fn results(
        &self,
    ) -> vstd::seq::Seq<Result<(SuiteMeasurements, vstd::seq::Seq<vstd::seq::Seq<char>>), vstd::seq::Seq<char>>>
    {
        unreachable!()
    }

    fn run_suite(
        &mut self,
        suite: SiteCompatibilitySuite,
        _config: &SiteCompatibilityHarnessConfig,
        script: &str,
    ) -> Result<(SuiteMeasurements, Vec<String>), String> {
        self.scripts.push(script.to_owned());
        if self.fail_on == Some(suite) {
            return Err(format!("engine failed on {}", suite.id()));
        }
        let console: Vec<String> = (0..occurrences(script, "console.log("))
            .map(|i| format!("line {i}"))
            .collect();
        let measurements = SuiteMeasurements {
            wall_time_us: 1,
            vm_instructions: script.len() as u64,
            event_loop_jobs: 10,
            microtasks_executed: occurrences(script, "queueMicrotask("),
            promise_reactions_executed: 0,
            timers_fired: 3,
            hit_limit: false,
            dom_text_mutations: occurrences(script, "textContent ="),
            dom_attribute_mutations: occurrences(script, "setAttribute("),
            dom_value_mutations: occurrences(script, ".value ="),
            dom_structure_mutations: occurrences(script, "appendChild(") * 12,
            dom_queries: occurrences(script, "querySelector("),
            cssom_inline_writes: occurrences(script, ".style."),
            cssom_inline_removals: 0,
            cssom_rules_inserted: occurrences(script, "insertRule("),
            cssom_rules_deleted: 0,
            computed_style_reads: occurrences(script, "getComputedStyle("),
            fetch_calls: occurrences(script, "fetch("),
            xhr_sends: 0,
            storage_writes: occurrences(script, "Storage.setItem("),
            cookie_writes: occurrences(script, "document.cookie ="),
            history_pushes: occurrences(script, "history.pushState("),
            history_replaces: occurrences(script, "history.replaceState("),
            urls_created: 0,
            url_search_params_created: occurrences(script, "new URLSearchParams("),
            canvas_commands_recorded: occurrences(script, "ctx.fill") * 4,
            media_events: 0,
            messages_to_worker: occurrences(script, "postMessage("),
            messages_to_main: occurrences(script, "postMessage("),
        };
        Ok((measurements, console))
    }
}

#[test]
fn builds_all_synthetic_site_scripts() {
    let config = SiteCompatibilityHarnessConfig::for_profile(SiteCompatibilityProfile::Smoke);

    for suite in SiteCompatibilitySuite::ALL {
        let script = build_site_compatibility_script(suite, &config);
        assert!(script.contains("document.title"));
        assert!(script.contains("fetch("));
        assert!(script.contains("console.log"));
    }
}

#[test]
fn smoke_harness_runs_all_suites() {
    let config = SiteCompatibilityHarnessConfig::for_profile(SiteCompatibilityProfile::Smoke);
    let mut runner = TextCountingRunner::default();
    let run = run_site_compatibility_harness(config, &mut runner).expect("compat harness should run");

    assert_eq!(run.suites.len(), 3);
    assert_eq!(run.aggregate.suites, 3);
    assert!(run.aggregate.average_score_percent > 0);
    assert!(run.aggregate.total_vm_instructions > 0);
}

#[test]
fn can_run_single_github_suite() {
    let mut config = SiteCompatibilityHarnessConfig::for_profile(SiteCompatibilityProfile::Smoke);
    config.suites = vec![SiteCompatibilitySuite::GitHubRepository];

    let mut runner = TextCountingRunner::default();
    let run = run_site_compatibility_harness(config, &mut runner).expect("github suite should run");

    assert_eq!(run.suites.len(), 1);
    assert_eq!(
        run.suites[0].suite,
        SiteCompatibilitySuite::GitHubRepository
    );
    assert!(run.suites[0].metrics.fetch_calls >= 3);
    assert!(run.suites[0].metrics.worker_messages >= 1);
}

#[test]
fn empty_suite_list_defaults_to_all() {
    let mut config = SiteCompatibilityHarnessConfig::for_profile(SiteCompatibilityProfile::Smoke);
    config.suites.clear();

    let mut runner = TextCountingRunner::default();
    let run = run_site_compatibility_harness(config, &mut runner).expect("harness should run default suites");

    assert_eq!(run.suites.len(), SiteCompatibilitySuite::ALL.len());
}

#[test]
fn sanitized_config_sorts_dedups_and_clamps() {
    let mut config = SiteCompatibilityHarnessConfig::for_profile(SiteCompatibilityProfile::Stress);
    config.suites = vec![
        SiteCompatibilitySuite::WikipediaArticle,
        SiteCompatibilitySuite::GoogleSearch,
        SiteCompatibilitySuite::WikipediaArticle,
    ];
    config.dom_nodes_per_suite = 0;
    config.style_mutations_per_suite = 50_000;
    config.instruction_budget = 5;
    config.max_call_depth = 1;
    config.max_jobs_per_run = 7;
    let s = config.sanitized();
    assert_eq!(
        s.suites,
        vec![SiteCompatibilitySuite::GoogleSearch, SiteCompatibilitySuite::WikipediaArticle]
    );
    assert_eq!(s.dom_nodes_per_suite, 1);
    assert_eq!(s.style_mutations_per_suite, 10_000);
    assert_eq!(s.instruction_budget, 10_000);
    assert_eq!(s.max_call_depth, 32);
    assert_eq!(s.max_jobs_per_run, 128);
    assert_eq!(s.clone().sanitized(), s);
    let el = s.event_loop_config();
    assert_eq!(el.max_jobs_per_run, 128);
    assert_eq!(el.max_timer_advances, 128);
    assert_eq!(s.vm_config().max_call_depth, 32);
}

#[test]
fn suite_names_and_profiles() {
    assert_eq!(SiteCompatibilityProfile::Smoke.as_str(), "smoke");
    assert_eq!(SiteCompatibilityProfile::default(), SiteCompatibilityProfile::Standard);
    assert_eq!(SiteCompatibilitySuite::GitHubRepository.id(), "github-repository-synthetic");
    assert_eq!(
        SiteCompatibilitySuite::WikipediaArticle.target_url(),
        "https://compat.wikipedia.test/wiki/Sylphos"
    );
    assert_eq!(SiteCompatibilitySuite::GoogleSearch.title(), "Google Search synthetic suite");
    assert!(SiteCompatibilitySuite::GoogleSearch.description().starts_with("Search box"));
    assert_eq!(SiteCompatibilitySignal::ComputedStyleReads.as_str(), "computed_style_reads");
}

#[test]
fn scripts_carry_the_configured_loop_sizes() {
    let mut config = SiteCompatibilityHarnessConfig::for_profile(SiteCompatibilityProfile::Smoke);
    config.dom_nodes_per_suite = 17;
    config.timer_ticks_per_suite = 0;
    let google = build_site_compatibility_script(SiteCompatibilitySuite::GoogleSearch, &config);
    assert!(google.contains("while (resultIndex < 17) {"));
    assert!(google.contains("if (tick >= 1) {"));
    assert!(google.starts_with("\ndocument.title = \"Google Synthetic Search\";"));
    let wiki = build_site_compatibility_script(SiteCompatibilitySuite::WikipediaArticle, &config);
    assert!(wiki.contains("while (draw < 2) {"));
}

#[test]
fn scores_weigh_passed_signals_and_warn_on_misses() {
    let config = SiteCompatibilityHarnessConfig::for_profile(SiteCompatibilityProfile::Smoke);
    let mut metrics = SiteCompatibilityMetrics::default();
    metrics.vm_instructions = 500;
    metrics.dom_mutations = 4;
    metrics.cssom_mutations = 3;
    metrics.fetch_calls = 2;
    let run = score_suite(SiteCompatibilitySuite::GoogleSearch, &config, metrics, vec![]);
    // Weights: vm 2, dom 3, cssom 2, fetch 3 passed of 17 in all.
    assert_eq!(run.score_percent, 58);
    assert!(!run.passed);
    assert_eq!(run.scores.len(), 9);
    assert_eq!(run.warnings.len(), 5);
    assert_eq!(
        run.warnings[0],
        "signal `storage_writes` below minimum: actual=0 minimum=1"
    );

    metrics.hit_limit = true;
    metrics.storage_writes = 1;
    metrics.history_mutations = 1;
    metrics.timers_fired = 3;
    metrics.microtasks_executed = 1;
    metrics.console_lines = 3;
    let limited = score_suite(SiteCompatibilitySuite::GoogleSearch, &config, metrics, vec![]);
    assert_eq!(limited.score_percent, 100);
    assert!(!limited.passed);
    assert_eq!(
        limited.warnings,
        vec!["suite hit VM or event-loop limit; raise budgets or inspect runaway work".to_owned()]
    );
}

#[test]
fn metrics_combine_raw_counters() {
    let mut m = SuiteMeasurements {
        wall_time_us: 9,
        vm_instructions: 1,
        event_loop_jobs: 2,
        microtasks_executed: 3,
        promise_reactions_executed: 4,
        timers_fired: 5,
        hit_limit: false,
        dom_text_mutations: 1,
        dom_attribute_mutations: 2,
        dom_value_mutations: 3,
        dom_structure_mutations: 4,
        dom_queries: 6,
        cssom_inline_writes: 1,
        cssom_inline_removals: 1,
        cssom_rules_inserted: 1,
        cssom_rules_deleted: 1,
        computed_style_reads: 7,
        fetch_calls: 8,
        xhr_sends: 9,
        storage_writes: 10,
        cookie_writes: 11,
        history_pushes: 1,
        history_replaces: 2,
        urls_created: 3,
        url_search_params_created: 4,
        canvas_commands_recorded: 12,
        media_events: 13,
        messages_to_worker: 5,
        messages_to_main: 6,
    };
    let metrics = site_metrics(&m, "a\nb\n", 2);
    assert_eq!(metrics.script_bytes, 4);
    assert_eq!(metrics.script_lines, 2);
    assert_eq!(metrics.dom_mutations, 10);
    assert_eq!(metrics.cssom_mutations, 4);
    assert_eq!(metrics.history_mutations, 3);
    assert_eq!(metrics.url_objects, 7);
    assert_eq!(metrics.worker_messages, 11);
    assert_eq!(metrics.console_lines, 2);
    m.messages_to_worker = u64::MAX;
    assert_eq!(site_metrics(&m, "x", 0).worker_messages, u64::MAX);
    assert_eq!(site_metrics(&m, "x", 0).script_lines, 1);
    assert_eq!(
        metrics.compact(),
        "instr=1 jobs=2 dom=10 cssom=4 fetch=8 storage=10 history=3 worker=11 canvas=12 console=2 limit=false"
    );
}

#[test]
fn runner_error_stops_the_harness() {
    let config = SiteCompatibilityHarnessConfig::for_profile(SiteCompatibilityProfile::Smoke);
    let mut runner = TextCountingRunner {
        scripts: Vec::new(),
        fail_on: Some(SiteCompatibilitySuite::GitHubRepository),
    };
    let result = run_site_compatibility_harness(config, &mut runner);
    assert_eq!(result.unwrap_err(), "engine failed on github-repository-synthetic");
    assert_eq!(runner.scripts.len(), 2);
}
