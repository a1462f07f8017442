use syljs::cache_api::{
    analyze_service_worker_script, merge_metrics, CacheApiError, CacheApiHost, CacheApiMetrics,
    CacheApiRequest, CacheApiResponse, ResearchCacheStorage, ResearchServiceWorkerHost,
    ServiceWorkerHost, ServiceWorkerState,
};

#[test]
fn cache_storage_put_match_delete_roundtrip() {
    let mut cache = ResearchCacheStorage::new();
    cache.open_cache("static-v1").unwrap();
    cache
        .put(
            "static-v1",
            CacheApiRequest::get("/app.js"),
            CacheApiResponse::text("/app.js", "console.log('cached')"),
        )
        .unwrap();

    let hit = cache
        .match_in_cache("static-v1", &CacheApiRequest::get("/app.js"))
        .unwrap();
    assert_eq!(hit.body, "console.log('cached')");
    assert_eq!(cache.keys("static-v1").len(), 1);
    assert!(cache.delete_entry("static-v1", &CacheApiRequest::get("/app.js")));
    assert!(cache
        .match_in_cache("static-v1", &CacheApiRequest::get("/app.js"))
        .is_none());
}

#[test]
fn service_worker_analysis_detects_cache_first_precache() {
    let source = r#"
        self.addEventListener('install', event => {
            self.skipWaiting();
            event.waitUntil(caches.open('shell-v1').then(cache => cache.addAll([
                '/', '/app.css', '/app.js'
            ])));
        });
        self.addEventListener('activate', event => clients.claim());
        self.addEventListener('fetch', event => {
            event.respondWith(caches.match(event.request).then(hit => hit || fetch(event.request)));
        });
    "#;

    let analysis = analyze_service_worker_script(source);
    assert!(analysis.has_install_listener);
    assert!(analysis.has_activate_listener);
    assert!(analysis.has_fetch_listener);
    assert!(analysis.skip_waiting);
    assert!(analysis.clients_claim);
    assert!(analysis.cache_first_fetch);
    assert_eq!(analysis.cache_names, vec!["shell-v1".to_owned()]);
    assert!(analysis.precache_urls.contains(&"/app.js".to_owned()));
}

#[test]
fn registered_service_worker_precaches_and_intercepts_fetch() {
    let cache = ResearchCacheStorage::new();
    let mut host = ResearchServiceWorkerHost::new(cache);
    host.register_script(
        "/sw.js",
        r#"
            self.addEventListener('install', event => {
                event.waitUntil(caches.open('shell').then(cache => cache.addAll(['/offline.html'])));
            });
            self.addEventListener('fetch', event => {
                event.respondWith(caches.match(event.request).then(hit => hit || fetch(event.request)));
            });
        "#,
    );

    let registration = host
        .register_service_worker("/sw.js".to_owned(), Some("/".to_owned()))
        .unwrap();
    assert_eq!(registration.scope, "/");
    assert!(registration.controls_clients);

    let response = host
        .intercept_fetch(&CacheApiRequest::get("/offline.html"))
        .unwrap();
    assert_eq!(response.body, "service-worker-precache:/offline.html");

    let metrics = host.metrics();
    assert_eq!(metrics.service_worker_registrations, 1);
    assert_eq!(metrics.fetch_cache_hits, 1);
}

#[test]
fn request_normalization() {
    let r = CacheApiRequest::new("  /a.js \n", " post ");
    assert_eq!(r.url, "/a.js");
    assert_eq!(r.method, "POST");
    assert!(!r.is_cacheable_get());
    let g = CacheApiRequest::new("/b", "   ");
    assert_eq!(g.method, "GET");
    assert!(g.is_cacheable_get());
}

#[test]
fn put_refusals_and_messages() {
    let mut cache = ResearchCacheStorage::new();
    let post = CacheApiRequest::new("/x", "POST");
    assert_eq!(
        cache.put("c", post, CacheApiResponse::text("/x", "b")),
        Err(CacheApiError::NonGetRequest)
    );
    let big = "x".repeat(2 * 1024 * 1024 + 1);
    assert_eq!(
        cache.put("c", CacheApiRequest::get("/x"), CacheApiResponse::text("/x", &big)),
        Err(CacheApiError::ResponseTooLarge)
    );
    assert_eq!(
        cache.open_cache("a/b"),
        Err(CacheApiError::InvalidCacheName)
    );
    let long = "n".repeat(129);
    assert_eq!(cache.open_cache(&long), Err(CacheApiError::CacheNameTooLong));
    assert!(cache.open_cache(&"n".repeat(128)).is_ok());
    assert_eq!(
        CacheApiError::ResponseTooLarge.message(),
        "cached response exceeds 2097152 bytes"
    );
    assert_eq!(
        CacheApiError::InvalidCacheName.message(),
        "cache name contains invalid path characters"
    );
    assert_eq!(cache.metrics().cache_put_calls, 0);
    assert_eq!(cache.metrics().cache_open_calls, 1);
}

#[test]
fn blank_cache_name_is_default_and_names_are_sorted() {
    let mut cache = ResearchCacheStorage::new();
    cache.open_cache("zeta").unwrap();
    cache.open_cache("  ").unwrap();
    cache.open_cache("alpha").unwrap();
    assert_eq!(cache.cache_names(), vec!["alpha", "default", "zeta"]);
    assert!(cache.delete_cache(" zeta "));
    assert!(!cache.delete_cache("zeta"));
    assert_eq!(cache.cache_names(), vec!["alpha", "default"]);
}

#[test]
fn full_cache_evicts_least_request() {
    let mut cache = ResearchCacheStorage::new();
    for i in 0..4096 {
        cache.put_text("c", &format!("/k{i:05}"), "v").unwrap();
    }
    assert_eq!(cache.keys("c").len(), 4096);
    cache.put_text("c", "/k99999", "new").unwrap();
    let keys = cache.keys("c");
    assert_eq!(keys.len(), 4096);
    assert_eq!(keys[0].url, "/k00001");
    assert_eq!(keys[4095].url, "/k99999");
    cache.put_text("c", "/k00002", "replaced").unwrap();
    assert_eq!(cache.keys("c").len(), 4096);
    assert_eq!(
        cache.match_in_cache("c", &CacheApiRequest::get("/k00002")).unwrap().body,
        "replaced"
    );
}

#[test]
fn match_any_uses_name_order_and_counts() {
    let mut cache = ResearchCacheStorage::new();
    cache.put_text("b", "/x", "from-b").unwrap();
    cache.put_text("a", "/x", "from-a").unwrap();
    assert_eq!(cache.match_any(&CacheApiRequest::get("/x")).unwrap().body, "from-a");
    assert!(cache.match_any(&CacheApiRequest::get("/y")).is_none());
    let m = cache.metrics();
    assert_eq!(m.cache_storage_match_calls, 2);
    assert_eq!(m.cache_hits, 1);
    assert_eq!(m.cache_misses, 1);
    let snaps = cache.snapshots();
    assert_eq!(snaps.len(), 2);
    assert_eq!(snaps[0].name, "a");
    assert_eq!(snaps[0].entries[0].revision, 2);
    assert_eq!(snaps[1].entries[0].revision, 1);
}

#[test]
fn response_size_counts_headers() {
    let mut r = CacheApiResponse::text(" /r ", "héllo");
    assert_eq!(r.url, "/r");
    assert_eq!(r.size_bytes(), 6);
    r.headers.push(("ab".to_owned(), "cde".to_owned()));
    assert_eq!(r.size_bytes(), 6 + 2 + 3 + 4);
    assert!(r.ok());
    r.status = 404;
    assert!(!r.ok());
}

#[test]
fn analysis_ignores_comments_and_dedupes() {
    let source = "// self.addEventListener('fetch', e => 1);\n\
                  addEventListener(\"install\", e => 1); // skipWaiting()\r\n\
                  caches.open(\"v1\"); caches.open('v1'); caches.open(name);\n\
                  cache.add('/a'); cache.addAll(['/b', \"/a\", `/c\\n`]);\n";
    let a = analyze_service_worker_script(source);
    assert!(!a.has_fetch_listener);
    assert!(a.has_install_listener);
    assert!(!a.skip_waiting);
    assert!(!a.cache_first_fetch);
    assert_eq!(a.cache_names, vec!["v1".to_owned()]);
    assert_eq!(
        a.precache_urls,
        vec!["/a".to_owned(), "/b".to_owned(), "/c\n".to_owned()]
    );
}

#[test]
fn registration_lifecycle() {
    let mut host = ResearchServiceWorkerHost::default();
    host.register_script(
        "/app/sw.js",
        "self.addEventListener('fetch', e => e.respondWith(caches.match(e.request)));\n\
         caches.open('app'); cache.addAll(['page.html']);",
    );
    let reg = host.register_service_worker(" /app/sw.js ".to_owned(), None).unwrap();
    assert_eq!(reg.scope, "/app/");
    assert_eq!(reg.script_url, "/app/sw.js");
    assert_eq!(reg.id.0, 1);
    assert_eq!(reg.state, ServiceWorkerState::Activated);
    assert_eq!(reg.state.as_str(), "activated");
    let hit = host.intercept_fetch(&CacheApiRequest::get("/app/page.html")).unwrap();
    assert_eq!(hit.body, "service-worker-precache:/app/page.html");
    assert!(host.intercept_fetch(&CacheApiRequest::get("/other")).is_none());
    let again = host.update_scope("/app/").unwrap().unwrap();
    assert_eq!(again.id.0, 1);
    assert!(host.update_scope("/nope/").unwrap().is_none());
    assert_eq!(host.registrations().len(), 1);
    assert!(host.registration_for_scope(" /app/ ").is_some());
    assert!(host.unregister_scope("/app/"));
    assert!(!host.unregister_scope("/app/"));
    assert!(host.controller_for_url("/app/page.html").is_none());
    let m = host.metrics();
    assert_eq!(m.service_worker_registrations, 2);
    assert_eq!(m.service_worker_updates, 1);
    assert_eq!(m.service_worker_unregistrations, 1);
    assert_eq!(m.cache_add_calls, 2);
    assert_eq!(m.fetch_intercepts, 1);
}

#[test]
fn longest_scope_controls() {
    let mut host = ResearchServiceWorkerHost::default();
    host.register_script("/sw.js", "self.addEventListener('fetch', e => 0);");
    host.register_service_worker("/sw.js".to_owned(), Some("/".to_owned())).unwrap();
    host.register_service_worker("/sw.js".to_owned(), Some("/deep/".to_owned())).unwrap();
    assert_eq!(host.controller_for_url("/deep/x").unwrap().scope, "/deep/");
    assert_eq!(host.controller_for_url("/shallow").unwrap().scope, "/");
    let plain = host.register_service_worker("/none.js".to_owned(), Some("/p/".to_owned())).unwrap();
    assert!(!plain.controls_clients);
    assert_eq!(plain.id.0, 3);
}

#[test]
fn merged_metrics_saturate() {
    let mut a = CacheApiMetrics::default();
    a.cache_hits = u64::MAX - 1;
    a.fetch_intercepts = 3;
    let mut b = CacheApiMetrics::default();
    b.cache_hits = 5;
    b.fetch_intercepts = 4;
    let m = merge_metrics(a, b);
    assert_eq!(m.cache_hits, u64::MAX);
    assert_eq!(m.fetch_intercepts, 7);
    assert_eq!(merge_metrics(a, CacheApiMetrics::default()), a);
}

#[test]
fn registrations_control_clients_by_script_capabilities() {
    let mut host = ResearchServiceWorkerHost::default();
    host.register_script("/fetch.js", "self.addEventListener('fetch', e => 0);");
    host.register_script("/claim.js", "self.clients.claim();");
    host.register_script("/skip.js", "self.skipWaiting();");
    host.register_script("/idle.js", "console.log('idle');");
    for (script, scope) in [("/fetch.js", "/a/"), ("/claim.js", "/b/"), ("/skip.js", "/c/"), ("/idle.js", "/d/")] {
        host.register_service_worker(script.to_owned(), Some(scope.to_owned())).unwrap();
    }
    let regs = host.registrations();
    assert_eq!(regs.len(), 4);
    for r in &regs {
        assert_eq!(
            r.controls_clients,
            r.analysis.clients_claim || r.analysis.skip_waiting || r.analysis.has_fetch_listener
        );
    }
    let controlling: Vec<&str> = regs.iter().filter(|r| r.controls_clients).map(|r| r.scope.as_str()).collect();
    assert_eq!(controlling, vec!["/a/", "/b/", "/c/"]);
    assert!(host.controller_for_url("/d/page").is_none());
}
