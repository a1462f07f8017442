use syljs::security::{
    CredentialsMode, CspCheckResult, CspPolicyLite, MixedContentPolicy, ReferrerPolicyLite,
    RequestDestination, RequestMode, SandboxPolicy, SecurityContext, SecurityDecisionKind,
    SecurityEnforcer, SecurityOrigin, SecurityRequest, SecurityViolationKind,
};

#[test]
fn parses_default_ports_and_same_origin() {
    let left = SecurityOrigin::parse("https://Example.com/path");
    let right = SecurityOrigin::parse("https://example.com:443/elsewhere");
    assert_eq!(left, right);
    assert!(left.is_potentially_trustworthy());
}

#[test]
fn csp_blocks_cross_origin_script_when_only_self_allowed() {
    let context = SecurityContext::new("https://app.example/index.html")
        .with_csp("default-src 'self'; script-src 'self'");
    let mut enforcer = SecurityEnforcer::new(context);
    let request = SecurityRequest::new("https://cdn.example/app.js", RequestDestination::Script)
        .mode(RequestMode::Cors);
    let decision = enforcer.evaluate_request(&request);
    assert_eq!(decision.kind, SecurityDecisionKind::Blocked);
    assert_eq!(enforcer.metrics().csp_blocks, 1);
}

#[test]
fn cors_lite_allows_origin_header() {
    let context = SecurityContext::new("https://app.example/");
    let mut enforcer = SecurityEnforcer::new(context);
    let headers = vec![(
        "Access-Control-Allow-Origin".to_owned(),
        "https://app.example:443".to_owned(),
    )];
    let mut request = SecurityRequest::new("https://api.example/data", RequestDestination::Fetch)
        .mode(RequestMode::Cors)
        .credentials(CredentialsMode::Omit);
    request.response_headers = headers;
    let decision = enforcer.evaluate_request(&request);
    assert!(decision.is_allowed());
    assert!(!decision.same_origin);
}

#[test]
fn no_cors_cross_origin_is_opaque() {
    let mut enforcer = SecurityEnforcer::new(SecurityContext::new("https://app.example/"));
    let request = SecurityRequest::new("https://img.example/a.png", RequestDestination::Image)
        .mode(RequestMode::NoCors);
    let decision = enforcer.evaluate_request(&request);
    assert!(decision.is_allowed());
    assert!(decision.is_opaque());
}

#[test]
fn sandbox_blocks_scripts_without_allow_scripts() {
    let mut context = SecurityContext::new("https://app.example/");
    context.sandbox = SandboxPolicy::from_tokens("allow-same-origin");
    let mut enforcer = SecurityEnforcer::new(context);
    let request = SecurityRequest::new("https://app.example/app.js", RequestDestination::Script)
        .mode(RequestMode::SameOrigin);
    let decision = enforcer.evaluate_request(&request);
    assert_eq!(decision.kind, SecurityDecisionKind::Blocked);
    assert_eq!(enforcer.metrics().sandbox_blocks, 1);
}

#[test]
fn mixed_active_content_is_blocked_from_https() {
    let mut context = SecurityContext::new("https://app.example/");
    context.mixed_content = MixedContentPolicy::AllowPassive;
    let mut enforcer = SecurityEnforcer::new(context);
    let request = SecurityRequest::new("http://app.example/app.js", RequestDestination::Script)
        .mode(RequestMode::Cors);
    let decision = enforcer.evaluate_request(&request);
    assert_eq!(decision.kind, SecurityDecisionKind::Blocked);
    assert_eq!(enforcer.metrics().mixed_content_blocks, 1);
}

#[test]
fn service_worker_registration_requires_same_origin_scope() {
    let context = SecurityContext::new("https://app.example/");
    let mut enforcer = SecurityEnforcer::new(context);
    let decision = enforcer.evaluate_service_worker_registration(
        "https://app.example/sw.js",
        "https://other.example/",
    );
    assert_eq!(decision.kind, SecurityDecisionKind::Blocked);
}

#[test]
fn csp_allows_nonce_for_script() {
    let context =
        SecurityContext::new("https://app.example/").with_csp("script-src 'nonce-abc123'");
    let mut enforcer = SecurityEnforcer::new(context);
    let mut request =
        SecurityRequest::new("https://cdn.example/app.js", RequestDestination::Script)
            .mode(RequestMode::NoCors);
    request.nonce = Some("abc123".to_owned());
    let decision = enforcer.evaluate_request(&request);
    assert!(decision.is_allowed());
}

#[test]
fn csp_policy_parses_directives() {
    let policy = CspPolicyLite::parse("default-src 'self'; img-src * data:");
    let names = policy
        .directives()
        .into_iter()
        .map(|d| d.name)
        .collect::<Vec<_>>();
    assert!(names.contains(&"default-src".to_owned()));
    assert!(names.contains(&"img-src".to_owned()));
}

#[test]
fn origin_serialization_and_opaque_labels() {
    let origin = SecurityOrigin::parse("HTTP://Localhost:8080/x?y");
    assert_eq!(origin.serialize(), "http://localhost:8080");
    assert!(origin.is_potentially_trustworthy());
    assert!(origin.is_network_tuple());
    let a = SecurityOrigin::parse("data:text/plain,hi");
    let b = SecurityOrigin::parse("data:text/plain,hi");
    assert_eq!(a, b);
    assert!(!a.is_network_tuple());
    assert!(a.serialize().starts_with("opaque:"));
    assert_eq!(a.serialize().len(), "opaque:".len() + 16);
    assert!(!SecurityOrigin::parse("https://a.example/").same_origin(&SecurityOrigin::parse("https://a.example:8443/")));
}

#[test]
fn invalid_target_is_blocked_and_logged() {
    let mut enforcer = SecurityEnforcer::new(SecurityContext::new("https://app.example/"));
    let request = SecurityRequest::new("javascript:alert(1)", RequestDestination::Script);
    let decision = enforcer.evaluate_request(&request);
    assert_eq!(decision.kind, SecurityDecisionKind::Blocked);
    assert_eq!(decision.violations.len(), 1);
    assert_eq!(decision.violations[0].kind, SecurityViolationKind::InvalidUrl);
    assert_eq!(enforcer.violations().len(), 1);
    let m = enforcer.metrics();
    assert_eq!(m.decisions, 1);
    assert_eq!(m.blocked, 1);
    assert_eq!(m.cross_origin_requests, 1);
}

#[test]
fn metrics_stay_balanced_over_mixed_requests() {
    let context = SecurityContext::new("https://app.example/").with_csp("img-src 'self'");
    let mut enforcer = SecurityEnforcer::new(context);
    let urls = [
        ("https://app.example/a.js", RequestDestination::Script, RequestMode::SameOrigin),
        ("https://img.example/a.png", RequestDestination::Image, RequestMode::NoCors),
        ("https://app.example/b.png", RequestDestination::Image, RequestMode::Cors),
        ("https://api.example/x", RequestDestination::Fetch, RequestMode::Cors),
        ("https://api.example/x", RequestDestination::Fetch, RequestMode::NoCors),
    ];
    for (url, dest, mode) in urls {
        let request = SecurityRequest::new(url, dest).mode(mode);
        let _ = enforcer.evaluate_request(&request);
    }
    let m = enforcer.metrics();
    assert_eq!(m.decisions, 5);
    assert_eq!(m.decisions, m.allowed + m.allowed_opaque + m.allowed_with_warnings + m.blocked);
    assert_eq!(m.decisions, m.same_origin_requests + m.cross_origin_requests);
    assert_eq!(m.csp_blocks, 1);
    assert_eq!(m.cors_preflight_like_checks, 1);
    assert_eq!(m.allowed_opaque, 1);
}

#[test]
fn report_only_csp_warns_instead_of_blocking() {
    let mut context = SecurityContext::new("https://app.example/");
    context.csp = CspPolicyLite::parse("script-src 'self'").report_only(true);
    let mut enforcer = SecurityEnforcer::new(context);
    let request = SecurityRequest::new("https://cdn.example/x.js", RequestDestination::Script)
        .mode(RequestMode::NoCors);
    let decision = enforcer.evaluate_request(&request);
    assert_eq!(decision.kind, SecurityDecisionKind::AllowedWithWarnings);
    assert_eq!(decision.warnings, vec!["CSP report-only violation: script-src".to_owned()]);
    assert!(enforcer.violations().is_empty());
}

#[test]
fn csp_fallback_chain_and_sources() {
    let origin = SecurityOrigin::parse("https://app.example/");
    let policy = CspPolicyLite::parse("default-src 'none'; img-src *.cdn.example https:");
    assert_eq!(
        policy.allows(&origin, RequestDestination::Image, "https://a.cdn.example/x.png", None),
        CspCheckResult::Allowed
    );
    assert_eq!(
        policy.allows(&origin, RequestDestination::Image, "http://other.example/x.png", None),
        CspCheckResult::Blocked("img-src".to_owned())
    );
    assert_eq!(
        policy.allows(&origin, RequestDestination::Script, "https://app.example/x.js", None),
        CspCheckResult::Blocked("default-src".to_owned())
    );
    assert!(CspPolicyLite::new().is_empty());
    assert!(!policy.is_empty());
}

#[test]
fn credentials_without_allow_credentials_warn() {
    let mut enforcer = SecurityEnforcer::new(SecurityContext::new("https://app.example/"));
    let mut request = SecurityRequest::new("https://api.example/x", RequestDestination::Fetch)
        .credentials(CredentialsMode::Include);
    request.response_headers = vec![("access-control-allow-origin".to_owned(), " * ".to_owned())];
    let decision = enforcer.evaluate_request(&request);
    assert_eq!(decision.kind, SecurityDecisionKind::AllowedWithWarnings);
    assert!(!decision.credentials_allowed);
    request.response_headers.push(("Access-Control-Allow-Credentials".to_owned(), "TRUE".to_owned()));
    let decision = enforcer.evaluate_request(&request);
    assert_eq!(decision.kind, SecurityDecisionKind::Allowed);
    assert!(decision.credentials_allowed);
}

#[test]
fn referrer_policies() {
    let mut context = SecurityContext::new("https://app.example/page?q=1");
    assert_eq!(
        context.referrer_for("https://app.example/other"),
        Some("https://app.example/page?q=1".to_owned())
    );
    assert_eq!(
        context.referrer_for("https://b.example/"),
        Some("https://app.example:443".to_owned())
    );
    assert_eq!(context.referrer_for("http://b.example/"), None);
    context.referrer_policy = ReferrerPolicyLite::NoReferrer;
    assert_eq!(context.referrer_for("https://app.example/"), None);
    assert!(context.is_secure_context());
}

#[test]
fn sandbox_without_same_origin_gets_opaque_origin() {
    let context = SecurityContext::new("https://app.example/").with_sandbox_tokens("allow-scripts");
    assert!(!context.origin.is_network_tuple());
    assert!(context.sandbox.allow_scripts);
    assert!(context.sandbox.is_sandboxed());
    let kept = SecurityContext::new("https://app.example/")
        .with_sandbox_tokens("allow-same-origin allow-scripts");
    assert_eq!(kept.origin, SecurityOrigin::parse("https://app.example/"));
    assert!(!SandboxPolicy::unsandboxed().is_sandboxed());
    assert_eq!(SandboxPolicy::from_tokens(""), SandboxPolicy::locked_down());
}

#[test]
fn method_is_upper_cased() {
    let request = SecurityRequest::new("https://a.example/", RequestDestination::Fetch).method("post");
    assert_eq!(request.method, "POST");
}

#[test]
fn csp_directives_are_sorted_with_their_sources() {
    let policy = CspPolicyLite::parse("img-src * data:; DEFAULT-SRC 'self'");
    let d = policy.directives();
    assert_eq!(d.len(), 2);
    assert_eq!(d[0].name, "default-src");
    assert_eq!(d[0].sources, vec!["'self'".to_owned()]);
    assert_eq!(d[1].name, "img-src");
    assert_eq!(d[1].sources, vec!["*".to_owned(), "data:".to_owned()]);
}
