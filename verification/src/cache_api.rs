//! Service Worker and Cache API simulation.
//!
//! A deterministic Service Worker registration model plus CacheStorage and
//! Cache storage: lifecycle, scope matching, cache mutation with bounded
//! capacity, fetch interception and metrics.

use crate::keyed::{keys_sorted, lex_lt, table_map};
use crate::text::{byte_len, chars_of, eq_ignore_case, owned, trim, upper, utf8_len};
use vstd::prelude::*;

verus! {

broadcast use vstd::string::group_string_axioms;

/// Longest accepted cache name, in bytes.
const MAX_CACHE_NAME_LEN: usize = 128;

/// Most entries one cache holds.
const MAX_CACHE_ENTRIES_PER_CACHE: usize = 4096;

/// Largest response stored, in bytes.
const MAX_RESPONSE_BYTES: usize = 2097152;

// ---------------------------------------------------------------------------
// Errors
// ---------------------------------------------------------------------------

/// Why a Cache API operation was refused.
#[derive(Debug, Clone, Copy, PartialEq, Eq, Structural)]
pub enum CacheApiError {
    /// Only GET requests are stored.
    NonGetRequest,
    /// The response is larger than `MAX_RESPONSE_BYTES`.
    ResponseTooLarge,
    /// The cache name is longer than `MAX_CACHE_NAME_LEN` bytes.
    CacheNameTooLong,
    /// The cache name holds `\0`, `/` or `\`.
    InvalidCacheName,
}

/// Message text of an error.
pub open spec fn cache_error_message(e: CacheApiError) -> Seq<char> {
    match e {
        CacheApiError::NonGetRequest => "Cache API simulation only stores GET requests"@,
        CacheApiError::ResponseTooLarge => "cached response exceeds 2097152 bytes"@,
        CacheApiError::CacheNameTooLong => "cache name exceeds 128 bytes"@,
        CacheApiError::InvalidCacheName => "cache name contains invalid path characters"@,
    }
}

impl CacheApiError {
    /// Human-readable message.
    pub fn message(&self) -> (r: String)
        ensures
            r@ == cache_error_message(*self),
    {
        match self {
            CacheApiError::NonGetRequest => owned("Cache API simulation only stores GET requests"),
            CacheApiError::ResponseTooLarge => owned("cached response exceeds 2097152 bytes"),
            CacheApiError::CacheNameTooLong => owned("cache name exceeds 128 bytes"),
            CacheApiError::InvalidCacheName => owned("cache name contains invalid path characters"),
        }
    }
}

// ---------------------------------------------------------------------------
// Requests and responses
// ---------------------------------------------------------------------------

/// Stable Service Worker registration id.
#[derive(Debug, Clone, Copy, PartialEq, Eq, PartialOrd, Ord, Hash)]
pub struct ServiceWorkerRegistrationId(pub u64);

/// Cache API request key.
#[derive(Debug, Clone, PartialEq, Eq, PartialOrd, Ord, Hash)]
pub struct CacheApiRequest {
    /// Absolute or caller-normalized URL.
    pub url: String,
    /// HTTP method.
    pub method: String,
}

/// Key of a request: URL, then method.
pub type ReqKey = (Seq<char>, Seq<char>);

/// The key a request is stored under.
pub open spec fn request_key(r: CacheApiRequest) -> ReqKey {
    (r.url@, r.method@)
}

/// Method normalization: trimmed and upper-cased; empty means `GET`.
pub open spec fn normalize_method_spec(m: Seq<char>) -> Seq<char> {
    if trim(m).len() == 0 {
        "GET"@
    } else {
        upper(trim(m))
    }
}

fn normalize_method(input: &str) -> (r: String)
    ensures
        r@ == normalize_method_spec(input@),
{
    let method = crate::text::trim_str(input);
    if method.as_str().is_empty() {
        owned("GET")
    } else {
        crate::text::to_upper(method.as_str())
    }
}

fn normalize_url_string(input: &str) -> (r: String)
    ensures
        r@ == trim(input@),
{
    crate::text::trim_str(input)
}

impl CacheApiRequest {
    /// Creates a request key: the URL trimmed, the method normalized.
    pub fn new(url: &str, method: &str) -> (r: Self)
        ensures
            r.url@ == trim(url@),
            r.method@ == normalize_method_spec(method@),
    {
        Self { url: normalize_url_string(url), method: normalize_method(method) }
    }

    /// Creates a GET request.
    pub fn get(url: &str) -> (r: Self)
        ensures
            r.url@ == trim(url@),
            r.method@ == "GET"@,
    {
        let r = Self::new(url, "GET");
        proof {
            reveal_strlit("GET");
            assert(trim("GET"@) =~= "GET"@);
            assert(upper("GET"@) =~= "GET"@);
        }
        r
    }

    /// Returns true when the method is GET, ignoring ASCII case.
    pub fn is_cacheable_get(&self) -> (r: bool)
        ensures
            r == eq_ignore_case(self.method@, "GET"@),
    {
        crate::text::str_eq_ignore_case(self.method.as_str(), "GET")
    }
}

fn copy_request(r: &CacheApiRequest) -> (c: CacheApiRequest)
    ensures
        c == *r,
{
    CacheApiRequest { url: r.url.clone(), method: r.method.clone() }
}

/// Cache API response payload.
#[derive(Debug, Clone, PartialEq, Eq)]
pub struct CacheApiResponse {
    /// Final URL.
    pub url: String,
    /// HTTP-like status.
    pub status: u16,
    /// Status text.
    pub status_text: String,
    /// Body text.
    pub body: String,
    /// Headers as (name, value) pairs.
    pub headers: Vec<(String, String)>,
}

/// Sum over headers of name length + value length + 4.
pub open spec fn headers_weight(h: Seq<(String, String)>) -> int
    decreases h.len(),
{
    if h.len() == 0 {
        0
    } else {
        headers_weight(h.drop_last()) + byte_len(h.last().0@) + byte_len(h.last().1@) + 4
    }
}

/// Stored size of a response: body bytes plus header weight, saturating at `usize::MAX`.
pub open spec fn response_size(r: ResponseView) -> int {
    let total = byte_len(r.body) + headers_weight(r.headers);
    if total > usize::MAX {
        usize::MAX as int
    } else {
        total
    }
}

/// Model of a response.
pub struct ResponseView {
    pub url: Seq<char>,
    pub status: u16,
    pub status_text: Seq<char>,
    pub body: Seq<char>,
    pub headers: Seq<(String, String)>,
}

impl View for CacheApiResponse {
    type V = ResponseView;

    open spec fn view(&self) -> ResponseView {
        ResponseView {
            url: self.url@,
            status: self.status,
            status_text: self.status_text@,
            body: self.body@,
            headers: self.headers@,
        }
    }
}

impl CacheApiResponse {
    /// Creates a 200 text response.
    pub fn text(url: &str, body: &str) -> (r: Self)
        ensures
            r.url@ == trim(url@),
            r.status == 200,
            r.status_text@ == "OK"@,
            r.body@ == body@,
            r.headers@.len() == 0,
    {
        Self {
            url: normalize_url_string(url),
            status: 200,
            status_text: owned("OK"),
            body: owned(body),
            headers: Vec::new(),
        }
    }

    /// Returns true for 2xx statuses.
    pub fn ok(&self) -> (r: bool)
        ensures
            r == (200 <= self.status < 300),
    {
        self.status >= 200 && self.status < 300
    }

    /// Approximate stored size in bytes.
    pub fn size_bytes(&self) -> (r: usize)
        ensures
            r == response_size(self@),
    {
        let mut acc: usize = 0;
        let mut i: usize = 0;
        let n = self.headers.len();
        while i < n
            invariant
                n == self.headers@.len(),
                i <= n,
                acc == (if headers_weight(self.headers@.take(i as int)) > usize::MAX {
                    usize::MAX as int
                } else {
                    headers_weight(self.headers@.take(i as int))
                }),
            decreases n - i,
        {
            assert(self.headers@.take(i + 1).drop_last() =~= self.headers@.take(i as int));
            assert(self.headers@.take(i + 1).last() == self.headers@[i as int]);
            let k = utf8_len(self.headers[i].0.as_str());
            let v = utf8_len(self.headers[i].1.as_str());
            let term = k.saturating_add(v).saturating_add(4);
            acc = acc.saturating_add(term);
            i = i + 1;
        }
        assert(self.headers@.take(n as int) =~= self.headers@);
        utf8_len(self.body.as_str()).saturating_add(acc)
    }
}

fn copy_pairs(v: &Vec<(String, String)>) -> (r: Vec<(String, String)>)
    ensures
        r@ == v@,
{
    let mut r: Vec<(String, String)> = Vec::new();
    let mut i: usize = 0;
    while i < v.len()
        invariant
            i <= v@.len(),
            r@ == v@.take(i as int),
        decreases v.len() - i,
    {
        r.push((v[i].0.clone(), v[i].1.clone()));
        i = i + 1;
        assert(r@ =~= v@.take(i as int));
    }
    assert(v@.take(v.len() as int) =~= v@);
    r
}

fn copy_response(r: &CacheApiResponse) -> (c: CacheApiResponse)
    ensures
        c@ == r@,
{
    CacheApiResponse {
        url: r.url.clone(),
        status: r.status,
        status_text: r.status_text.clone(),
        body: r.body.clone(),
        headers: copy_pairs(&r.headers),
    }
}

/// One Cache API entry.
#[derive(Debug, Clone, PartialEq, Eq)]
pub struct CacheApiEntry {
    /// Request key.
    pub request: CacheApiRequest,
    /// Stored response.
    pub response: CacheApiResponse,
    /// Logical insertion revision.
    pub revision: u64,
    /// Unix timestamp millis when inserted.
    pub inserted_at_ms: u128,
}

/// Model of an entry.
pub struct EntryView {
    pub request: ReqKey,
    pub response: ResponseView,
    pub revision: u64,
    pub inserted_at_ms: u128,
}

impl View for CacheApiEntry {
    type V = EntryView;

    open spec fn view(&self) -> EntryView {
        EntryView {
            request: request_key(self.request),
            response: self.response@,
            revision: self.revision,
            inserted_at_ms: self.inserted_at_ms,
        }
    }
}

fn copy_entry(e: &CacheApiEntry) -> (c: CacheApiEntry)
    ensures
        c@ == e@,
{
    CacheApiEntry {
        request: copy_request(&e.request),
        response: copy_response(&e.response),
        revision: e.revision,
        inserted_at_ms: e.inserted_at_ms,
    }
}

/// Cache snapshot.
#[derive(Debug, Clone, PartialEq, Eq)]
pub struct CacheSnapshot {
    /// Cache name.
    pub name: String,
    /// Entries in request order.
    pub entries: Vec<CacheApiEntry>,
}

/// Service Worker lifecycle state.
#[derive(Debug, Clone, Copy, PartialEq, Eq, Structural)]
pub enum ServiceWorkerState {
    Installing,
    Installed,
    Activating,
    Activated,
    Redundant,
}

/// Script-facing label of a state.
pub open spec fn worker_state_label(s: ServiceWorkerState) -> Seq<char> {
    match s {
        ServiceWorkerState::Installing => "installing"@,
        ServiceWorkerState::Installed => "installed"@,
        ServiceWorkerState::Activating => "activating"@,
        ServiceWorkerState::Activated => "activated"@,
        ServiceWorkerState::Redundant => "redundant"@,
    }
}

impl ServiceWorkerState {
    /// Script-facing state string.
    pub fn as_str(self) -> (r: &'static str)
        ensures
            r@ == worker_state_label(self),
    {
        match self {
            Self::Installing => "installing",
            Self::Installed => "installed",
            Self::Activating => "activating",
            Self::Activated => "activated",
            Self::Redundant => "redundant",
        }
    }
}

// ---------------------------------------------------------------------------
// Metrics
// ---------------------------------------------------------------------------

/// Cache and Service Worker counters.
#[derive(Debug, Clone, Copy, PartialEq, Eq, Structural)]
pub struct CacheApiMetrics {
    pub cache_open_calls: u64,
    pub cache_storage_match_calls: u64,
    pub cache_put_calls: u64,
    pub cache_match_calls: u64,
    pub cache_delete_calls: u64,
    pub cache_add_calls: u64,
    pub cache_hits: u64,
    pub cache_misses: u64,
    pub service_worker_registrations: u64,
    pub service_worker_unregistrations: u64,
    pub service_worker_updates: u64,
    pub fetch_intercepts: u64,
    pub fetch_cache_hits: u64,
    pub fetch_passthroughs: u64,
}

/// All counters at zero.
pub open spec fn zero_cache_metrics() -> CacheApiMetrics {
    CacheApiMetrics {
        cache_open_calls: 0,
        cache_storage_match_calls: 0,
        cache_put_calls: 0,
        cache_match_calls: 0,
        cache_delete_calls: 0,
        cache_add_calls: 0,
        cache_hits: 0,
        cache_misses: 0,
        service_worker_registrations: 0,
        service_worker_unregistrations: 0,
        service_worker_updates: 0,
        fetch_intercepts: 0,
        fetch_cache_hits: 0,
        fetch_passthroughs: 0,
    }
}

impl Default for CacheApiMetrics {
    fn default() -> (m: Self)
        ensures
            m == zero_cache_metrics(),
    {
        CacheApiMetrics {
            cache_open_calls: 0,
            cache_storage_match_calls: 0,
            cache_put_calls: 0,
            cache_match_calls: 0,
            cache_delete_calls: 0,
            cache_add_calls: 0,
            cache_hits: 0,
            cache_misses: 0,
            service_worker_registrations: 0,
            service_worker_unregistrations: 0,
            service_worker_updates: 0,
            fetch_intercepts: 0,
            fetch_cache_hits: 0,
            fetch_passthroughs: 0,
        }
    }
}

/// Saturating sum of two counters.
pub open spec fn sat_sum(a: u64, b: u64) -> u64 {
    if a + b > u64::MAX {
        u64::MAX
    } else {
        (a + b) as u64
    }
}

/// Saturating increment when `b` holds.
pub open spec fn inc_if(x: u64, b: bool) -> u64 {
    if b {
        sat_sum(x, 1)
    } else {
        x
    }
}

/// Field-wise saturating sum of two metric sets.
pub open spec fn merged_metrics(l: CacheApiMetrics, r: CacheApiMetrics) -> CacheApiMetrics {
    CacheApiMetrics {
        cache_open_calls: sat_sum(l.cache_open_calls, r.cache_open_calls),
        cache_storage_match_calls: sat_sum(l.cache_storage_match_calls, r.cache_storage_match_calls),
        cache_put_calls: sat_sum(l.cache_put_calls, r.cache_put_calls),
        cache_match_calls: sat_sum(l.cache_match_calls, r.cache_match_calls),
        cache_delete_calls: sat_sum(l.cache_delete_calls, r.cache_delete_calls),
        cache_add_calls: sat_sum(l.cache_add_calls, r.cache_add_calls),
        cache_hits: sat_sum(l.cache_hits, r.cache_hits),
        cache_misses: sat_sum(l.cache_misses, r.cache_misses),
        service_worker_registrations: sat_sum(
            l.service_worker_registrations,
            r.service_worker_registrations,
        ),
        service_worker_unregistrations: sat_sum(
            l.service_worker_unregistrations,
            r.service_worker_unregistrations,
        ),
        service_worker_updates: sat_sum(l.service_worker_updates, r.service_worker_updates),
        fetch_intercepts: sat_sum(l.fetch_intercepts, r.fetch_intercepts),
        fetch_cache_hits: sat_sum(l.fetch_cache_hits, r.fetch_cache_hits),
        fetch_passthroughs: sat_sum(l.fetch_passthroughs, r.fetch_passthroughs),
    }
}

/// Merges two metric sets field by field, saturating.
pub fn merge_metrics(left: CacheApiMetrics, right: CacheApiMetrics) -> (m: CacheApiMetrics)
    ensures
        m == merged_metrics(left, right),
{
    CacheApiMetrics {
        cache_open_calls: left.cache_open_calls.saturating_add(right.cache_open_calls),
        cache_storage_match_calls: left.cache_storage_match_calls.saturating_add(
            right.cache_storage_match_calls,
        ),
        cache_put_calls: left.cache_put_calls.saturating_add(right.cache_put_calls),
        cache_match_calls: left.cache_match_calls.saturating_add(right.cache_match_calls),
        cache_delete_calls: left.cache_delete_calls.saturating_add(right.cache_delete_calls),
        cache_add_calls: left.cache_add_calls.saturating_add(right.cache_add_calls),
        cache_hits: left.cache_hits.saturating_add(right.cache_hits),
        cache_misses: left.cache_misses.saturating_add(right.cache_misses),
        service_worker_registrations: left.service_worker_registrations.saturating_add(
            right.service_worker_registrations,
        ),
        service_worker_unregistrations: left.service_worker_unregistrations.saturating_add(
            right.service_worker_unregistrations,
        ),
        service_worker_updates: left.service_worker_updates.saturating_add(
            right.service_worker_updates,
        ),
        fetch_intercepts: left.fetch_intercepts.saturating_add(right.fetch_intercepts),
        fetch_cache_hits: left.fetch_cache_hits.saturating_add(right.fetch_cache_hits),
        fetch_passthroughs: left.fetch_passthroughs.saturating_add(right.fetch_passthroughs),
    }
}

/// Merging with zero counters changes nothing, and merging is commutative.
pub proof fn lemma_merge_identity_commutes(a: CacheApiMetrics, b: CacheApiMetrics)
    ensures
        merged_metrics(a, zero_cache_metrics()) == a,
        merged_metrics(a, b) == merged_metrics(b, a),
{
}

// ---------------------------------------------------------------------------
// Cache names
// ---------------------------------------------------------------------------

/// Cache-name sanitization: trimmed; empty means the default cache; at most
/// 128 bytes; no `\0`, `/` or `\`.
pub open spec fn sanitize_cache_name_spec(name: Seq<char>) -> Result<Seq<char>, CacheApiError> {
    let t = trim(name);
    if t.len() == 0 {
        Ok("default"@)
    } else if byte_len(t) > 128 {
        Err(CacheApiError::CacheNameTooLong)
    } else if exists|i: int| 0 <= i < t.len() && (t[i] == '\0' || t[i] == '/' || t[i] == '\\') {
        Err(CacheApiError::InvalidCacheName)
    } else {
        Ok(t)
    }
}

fn sanitize_cache_name(name: &str) -> (r: Result<String, CacheApiError>)
    ensures
        match r {
            Ok(s) => sanitize_cache_name_spec(name@) == Ok::<Seq<char>, CacheApiError>(s@),
            Err(e) => sanitize_cache_name_spec(name@) == Err::<Seq<char>, CacheApiError>(e),
        },
{
    let trimmed = crate::text::trim_str(name);
    let v = chars_of(trimmed.as_str());
    if v.len() == 0 {
        return Ok(owned("default"));
    }
    let blen = utf8_len(trimmed.as_str());
    if blen > MAX_CACHE_NAME_LEN {
        return Err(CacheApiError::CacheNameTooLong);
    }
    let mut i: usize = 0;
    while i < v.len()
        invariant
            i <= v@.len(),
            v@ == trim(name@),
            v@.len() != 0,
            byte_len(trim(name@)) <= 128,
            forall|j: int| 0 <= j < i ==> !(v@[j] == '\0' || v@[j] == '/' || v@[j] == '\\'),
        decreases v.len() - i,
    {
        if v[i] == '\0' || v[i] == '/' || v[i] == '\\' {
            assert(trim(name@)[i as int] == v@[i as int]);
            return Err(CacheApiError::InvalidCacheName);
        }
        i = i + 1;
    }
    Ok(trimmed)
}


// ---------------------------------------------------------------------------
// Entries of one cache, sorted by request key
// ---------------------------------------------------------------------------

/// Request keys in order: by URL, then by method.
pub open spec fn key_lt(a: ReqKey, b: ReqKey) -> bool {
    lex_lt(a.0, b.0) || (a.0 == b.0 && lex_lt(a.1, b.1))
}

proof fn lemma_key_irreflexive(a: ReqKey)
    ensures
        !key_lt(a, a),
{
    crate::keyed::lemma_lex_irreflexive(a.0);
    crate::keyed::lemma_lex_irreflexive(a.1);
}

proof fn lemma_key_transitive(a: ReqKey, b: ReqKey, c: ReqKey)
    requires
        key_lt(a, b),
        key_lt(b, c),
    ensures
        key_lt(a, c),
{
    if lex_lt(a.0, b.0) && lex_lt(b.0, c.0) {
        crate::keyed::lemma_lex_transitive(a.0, b.0, c.0);
    }
    if a.0 == b.0 && b.0 == c.0 {
        crate::keyed::lemma_lex_irreflexive(a.0);
        crate::keyed::lemma_lex_transitive(a.1, b.1, c.1);
    }
}

/// The key an entry is stored under.
pub open spec fn entry_key(e: CacheApiEntry) -> ReqKey {
    request_key(e.request)
}

/// Entry keys strictly increase.
pub open spec fn entries_sorted(s: Seq<CacheApiEntry>) -> bool {
    forall|i: int, j: int| 0 <= i < j < s.len() ==> key_lt(#[trigger] entry_key(s[i]), #[trigger] entry_key(s[j]))
}

/// Some entry has key `k`.
pub open spec fn has_entry(s: Seq<CacheApiEntry>, k: ReqKey) -> bool {
    exists|i: int| 0 <= i < s.len() && #[trigger] entry_key(s[i]) == k
}

/// Position of the entry with key `k`.
pub open spec fn entry_pos(s: Seq<CacheApiEntry>, k: ReqKey) -> int {
    choose|i: int| 0 <= i < s.len() && #[trigger] entry_key(s[i]) == k
}

/// A cache's entries as a map from request key.
pub open spec fn entries_map(s: Seq<CacheApiEntry>) -> Map<ReqKey, EntryView> {
    Map::new(|k: ReqKey| has_entry(s, k), |k: ReqKey| s[entry_pos(s, k)]@)
}

/// The least key of a map of entries.
pub open spec fn least_key(m: Map<ReqKey, EntryView>) -> ReqKey {
    choose|k: ReqKey| m.dom().contains(k) && forall|o: ReqKey| #[trigger] m.dom().contains(o) && o != k ==> key_lt(k, o)
}

proof fn lemma_entry_at(s: Seq<CacheApiEntry>, i: int)
    requires
        entries_sorted(s),
        0 <= i < s.len(),
    ensures
        entries_map(s).dom().contains(entry_key(s[i])),
        entries_map(s)[entry_key(s[i])] == s[i]@,
        entry_pos(s, entry_key(s[i])) == i,
{
    let k = entry_key(s[i]);
    assert(has_entry(s, k));
    let p = entry_pos(s, k);
    if p != i {
        if p < i {
            assert(key_lt(entry_key(s[p]), entry_key(s[i])));
        } else {
            assert(key_lt(entry_key(s[i]), entry_key(s[p])));
        }
        lemma_key_irreflexive(k);
    }
}

proof fn lemma_first_is_least(s: Seq<CacheApiEntry>)
    requires
        entries_sorted(s),
        s.len() > 0,
    ensures
        least_key(entries_map(s)) == entry_key(s[0]),
{
    let m = entries_map(s);
    let k0 = entry_key(s[0]);
    lemma_entry_at(s, 0);
    assert forall|o: ReqKey| #[trigger] m.dom().contains(o) && o != k0 implies key_lt(k0, o) by {
        let j = entry_pos(s, o);
        assert(j != 0);
    }
    let l = least_key(m);
    if l != k0 {
        assert(key_lt(l, k0));
        assert(key_lt(k0, l));
        lemma_key_transitive(l, k0, l);
        lemma_key_irreflexive(l);
    }
}

proof fn lemma_entries_empty(s: Seq<CacheApiEntry>)
    requires
        s.len() == 0,
    ensures
        entries_sorted(s),
        entries_map(s) == Map::<ReqKey, EntryView>::empty(),
{
    assert(entries_map(s) =~= Map::<ReqKey, EntryView>::empty());
}

proof fn lemma_entries_len(s: Seq<CacheApiEntry>)
    requires
        entries_sorted(s),
    ensures
        entries_map(s).dom().finite(),
        entries_map(s).dom().len() == s.len(),
    decreases s.len(),
{
    if s.len() == 0 {
        lemma_entries_empty(s);
    } else {
        let t = s.drop_last();
        assert(entries_sorted(t));
        lemma_entries_len(t);
        let k = entry_key(s.last());
        assert(entries_map(s).dom() =~= entries_map(t).dom().insert(k)) by {
            assert forall|x: ReqKey| entries_map(s).dom().contains(x) implies entries_map(t).dom().insert(k).contains(x) by {
                let i = entry_pos(s, x);
                if i < s.len() - 1 {
                    assert(t[i] == s[i]);
                }
            }
            assert forall|x: ReqKey| entries_map(t).dom().contains(x) implies entries_map(s).dom().contains(x) by {
                let i = entry_pos(t, x);
                assert(s[i] == t[i]);
            }
            assert(entries_map(s).dom().contains(k)) by {
                assert(entry_key(s[s.len() - 1]) == k);
            }
        }
        assert(!entries_map(t).dom().contains(k)) by {
            if entries_map(t).dom().contains(k) {
                let i = entry_pos(t, k);
                assert(t[i] == s[i]);
                assert(key_lt(entry_key(s[i]), entry_key(s[s.len() - 1])));
                lemma_key_irreflexive(k);
            }
        }
    }
}

fn key_compare(a: &CacheApiRequest, b: &CacheApiRequest) -> (r: i8)
    ensures
        r < 0 <==> key_lt(request_key(*a), request_key(*b)),
        r == 0 <==> request_key(*a) == request_key(*b),
        r > 0 <==> key_lt(request_key(*b), request_key(*a)),
{
    let au = chars_of(a.url.as_str());
    let bu = chars_of(b.url.as_str());
    let c = crate::keyed::lex_compare(au.as_slice(), bu.as_slice());
    proof {
        crate::keyed::lemma_lex_asymmetric(a.url@, b.url@);
        crate::keyed::lemma_lex_irreflexive(a.url@);
    }
    if c != 0 {
        return c;
    }
    let am = chars_of(a.method.as_str());
    let bm = chars_of(b.method.as_str());
    proof {
        crate::keyed::lemma_lex_asymmetric(a.method@, b.method@);
        crate::keyed::lemma_lex_irreflexive(a.method@);
    }
    crate::keyed::lex_compare(am.as_slice(), bm.as_slice())
}

/// Position of a request: `Ok(i)` when stored, else `Err(p)`, its insertion point.
fn entries_find(t: &Vec<CacheApiEntry>, key: &CacheApiRequest) -> (r: Result<usize, usize>)
    requires
        entries_sorted(t@),
    ensures
        match r {
            Ok(i) => i < t@.len() && entry_key(t@[i as int]) == request_key(*key),
            Err(p) => {
                &&& p <= t@.len()
                &&& !has_entry(t@, request_key(*key))
                &&& forall|j: int| 0 <= j < p ==> key_lt(#[trigger] entry_key(t@[j]), request_key(*key))
                &&& forall|j: int| p <= j < t@.len() ==> key_lt(request_key(*key), #[trigger] entry_key(t@[j]))
            },
        },
{
    let ghost k = request_key(*key);
    let mut lo: usize = 0;
    let mut hi: usize = t.len();
    while lo < hi
        invariant
            lo <= hi <= t@.len(),
            entries_sorted(t@),
            k == request_key(*key),
            forall|j: int| 0 <= j < lo ==> key_lt(#[trigger] entry_key(t@[j]), k),
            forall|j: int| hi <= j < t@.len() ==> key_lt(k, #[trigger] entry_key(t@[j])),
        decreases hi - lo,
    {
        let mid = lo + (hi - lo) / 2;
        let c = key_compare(&t[mid].request, key);
        if c == 0 {
            return Ok(mid);
        }
        if c < 0 {
            proof {
                assert forall|j: int| 0 <= j < mid + 1 implies key_lt(#[trigger] entry_key(t@[j]), k) by {
                    if j < mid {
                        lemma_key_transitive(entry_key(t@[j]), entry_key(t@[mid as int]), k);
                    }
                }
            }
            lo = mid + 1;
        } else {
            proof {
                assert forall|j: int| mid <= j < t@.len() implies key_lt(k, #[trigger] entry_key(t@[j])) by {
                    if j > mid {
                        lemma_key_transitive(k, entry_key(t@[mid as int]), entry_key(t@[j]));
                    }
                }
            }
            hi = mid;
        }
    }
    proof {
        assert forall|j: int| 0 <= j < t@.len() implies #[trigger] entry_key(t@[j]) != k by {
            lemma_key_irreflexive(k);
        }
    }
    Err(lo)
}

/// Inserts or replaces the entry for its request.
fn entries_insert(t: &mut Vec<CacheApiEntry>, e: CacheApiEntry)
    requires
        entries_sorted(old(t)@),
    ensures
        entries_sorted(final(t)@),
        entries_map(final(t)@) == entries_map(old(t)@).insert(entry_key(e), e@),
        final(t)@.len() == old(t)@.len() + (if has_entry(old(t)@, entry_key(e)) {
            0int
        } else {
            1int
        }),
{
    let ghost s0 = t@;
    let ghost k = entry_key(e);
    let ghost ev = e@;
    match entries_find(t, &e.request) {
        Ok(i) => {
            t.set(i, e);
            proof {
                let s1 = t@;
                assert(entries_sorted(s1)) by {
                    assert forall|a: int, b: int| 0 <= a < b < s1.len() implies key_lt(
                        #[trigger] entry_key(s1[a]),
                        #[trigger] entry_key(s1[b]),
                    ) by {
                        assert(entry_key(s0[a]) == entry_key(s1[a]));
                        assert(entry_key(s0[b]) == entry_key(s1[b]));
                        assert(key_lt(entry_key(s0[a]), entry_key(s0[b])));
                    }
                }
                lemma_entries_set_map(s0, s1, i as int);
            }
        },
        Err(p) => {
            t.insert(p, e);
            proof {
                let s1 = t@;
                assert(entries_sorted(s1)) by {
                    assert forall|a: int, b: int| 0 <= a < b < s1.len() implies key_lt(
                        #[trigger] entry_key(s1[a]),
                        #[trigger] entry_key(s1[b]),
                    ) by {
                        if a < p && b < p {
                            assert(key_lt(entry_key(s0[a]), entry_key(s0[b])));
                        } else if a < p && b == p {
                        } else if a < p && b > p {
                            assert(s1[b] == s0[b - 1]);
                            lemma_key_transitive(entry_key(s0[a]), k, entry_key(s0[b - 1]));
                        } else if a == p {
                            assert(s1[b] == s0[b - 1]);
                        } else {
                            assert(s1[a] == s0[a - 1]);
                            assert(s1[b] == s0[b - 1]);
                            assert(key_lt(entry_key(s0[a - 1]), entry_key(s0[b - 1])));
                        }
                    }
                }
                lemma_entries_insert_map(s0, s1, p as int);
            }
        },
    }
}

proof fn lemma_entries_set_map(s0: Seq<CacheApiEntry>, s1: Seq<CacheApiEntry>, i: int)
    requires
        entries_sorted(s0),
        entries_sorted(s1),
        0 <= i < s0.len(),
        s1.len() == s0.len(),
        entry_key(s0[i]) == entry_key(s1[i]),
        forall|j: int| 0 <= j < s0.len() && j != i ==> s1[j] == s0[j],
    ensures
        entries_map(s1) == entries_map(s0).insert(entry_key(s1[i]), s1[i]@),
{
    let k = entry_key(s1[i]);
    let m0 = entries_map(s0);
    let m1 = entries_map(s1);
    assert forall|x: ReqKey| #[trigger] m1.dom().contains(x) <==> m0.insert(k, s1[i]@).dom().contains(x) by {
        if m1.dom().contains(x) {
            let a = entry_pos(s1, x);
            if a != i {
                assert(s0[a] == s1[a]);
            }
        }
        if m0.dom().contains(x) {
            let b = entry_pos(s0, x);
            if b != i {
                assert(s1[b] == s0[b]);
            }
        }
        if x == k {
            assert(entry_key(s1[i]) == x);
        }
    }
    assert forall|x: ReqKey| #[trigger] m1.dom().contains(x) implies m1[x] == m0.insert(k, s1[i]@)[x] by {
        let a = entry_pos(s1, x);
        lemma_entry_at(s1, a);
        lemma_entry_at(s1, i);
        if a != i {
            assert(s0[a] == s1[a]);
            lemma_entry_at(s0, a);
        }
    }
    assert(m1 =~= m0.insert(k, s1[i]@));
}

proof fn lemma_entries_insert_map(s0: Seq<CacheApiEntry>, s1: Seq<CacheApiEntry>, p: int)
    requires
        entries_sorted(s0),
        entries_sorted(s1),
        0 <= p <= s0.len(),
        s1.len() == s0.len() + 1,
        !has_entry(s0, entry_key(s1[p])),
        forall|j: int| 0 <= j < p ==> s1[j] == s0[j],
        forall|j: int| p < j < s1.len() ==> s1[j] == s0[j - 1],
    ensures
        entries_map(s1) == entries_map(s0).insert(entry_key(s1[p]), s1[p]@),
{
    let k = entry_key(s1[p]);
    let m0 = entries_map(s0);
    let m1 = entries_map(s1);
    assert forall|x: ReqKey| #[trigger] m1.dom().contains(x) <==> m0.insert(k, s1[p]@).dom().contains(x) by {
        if m1.dom().contains(x) {
            let a = entry_pos(s1, x);
            if a < p {
                assert(s1[a] == s0[a]);
            } else if a > p {
                assert(s1[a] == s0[a - 1]);
            }
        }
        if m0.dom().contains(x) {
            let b = entry_pos(s0, x);
            let b1 = if b < p { b } else { b + 1 };
            assert(s1[b1] == s0[b]);
        }
        if x == k {
            assert(entry_key(s1[p]) == x);
        }
    }
    assert forall|x: ReqKey| #[trigger] m1.dom().contains(x) implies m1[x] == m0.insert(k, s1[p]@)[x] by {
        let a = entry_pos(s1, x);
        lemma_entry_at(s1, a);
        if a < p {
            assert(s1[a] == s0[a]);
            lemma_entry_at(s0, a);
        } else if a > p {
            assert(s1[a] == s0[a - 1]);
            lemma_entry_at(s0, a - 1);
        }
    }
    assert(m1 =~= m0.insert(k, s1[p]@));
}

proof fn lemma_entries_remove_map(s0: Seq<CacheApiEntry>, s1: Seq<CacheApiEntry>, i: int)
    requires
        entries_sorted(s0),
        0 <= i < s0.len(),
        s1 == s0.remove(i),
    ensures
        entries_sorted(s1),
        entries_map(s1) == entries_map(s0).remove(entry_key(s0[i])),
{
    let k = entry_key(s0[i]);
    assert(entries_sorted(s1)) by {
        assert forall|a: int, b: int| 0 <= a < b < s1.len() implies key_lt(
            #[trigger] entry_key(s1[a]),
            #[trigger] entry_key(s1[b]),
        ) by {
            let a0 = if a < i { a } else { a + 1 };
            let b0 = if b < i { b } else { b + 1 };
            assert(s1[a] == s0[a0]);
            assert(s1[b] == s0[b0]);
            assert(key_lt(entry_key(s0[a0]), entry_key(s0[b0])));
        }
    }
    let m0 = entries_map(s0);
    let m1 = entries_map(s1);
    assert forall|x: ReqKey| #[trigger] m1.dom().contains(x) <==> m0.remove(k).dom().contains(x) by {
        if m1.dom().contains(x) {
            let a = entry_pos(s1, x);
            let a0 = if a < i { a } else { a + 1 };
            assert(s1[a] == s0[a0]);
            if x == k {
                if a0 < i {
                    assert(key_lt(entry_key(s0[a0]), entry_key(s0[i])));
                } else {
                    assert(key_lt(entry_key(s0[i]), entry_key(s0[a0])));
                }
                lemma_key_irreflexive(k);
            }
        }
        if m0.remove(k).dom().contains(x) {
            let b = entry_pos(s0, x);
            assert(b != i);
            let b1 = if b < i { b } else { b - 1 };
            assert(s1[b1] == s0[b]);
        }
    }
    assert forall|x: ReqKey| #[trigger] m1.dom().contains(x) implies m1[x] == m0.remove(k)[x] by {
        let a = entry_pos(s1, x);
        lemma_entry_at(s1, a);
        let a0 = if a < i { a } else { a + 1 };
        assert(s1[a] == s0[a0]);
        lemma_entry_at(s0, a0);
    }
    assert(m1 =~= m0.remove(k));
}

/// Removes the entry for a request; true when one was stored.
fn entries_remove(t: &mut Vec<CacheApiEntry>, key: &CacheApiRequest) -> (r: bool)
    requires
        entries_sorted(old(t)@),
    ensures
        entries_sorted(final(t)@),
        entries_map(final(t)@) == entries_map(old(t)@).remove(request_key(*key)),
        r == entries_map(old(t)@).dom().contains(request_key(*key)),
        final(t)@.len() <= old(t)@.len(),
{
    let ghost s0 = t@;
    match entries_find(t, key) {
        Ok(i) => {
            proof {
                lemma_entry_at(s0, i as int);
            }
            let _ = t.remove(i);
            proof {
                lemma_entries_remove_map(s0, t@, i as int);
            }
            true
        },
        Err(_) => {
            assert(entries_map(s0).remove(request_key(*key)) =~= entries_map(s0));
            false
        },
    }
}

/// Removes the entry with the least key.
fn entries_remove_first(t: &mut Vec<CacheApiEntry>)
    requires
        entries_sorted(old(t)@),
        old(t)@.len() > 0,
    ensures
        entries_sorted(final(t)@),
        entries_map(final(t)@) == entries_map(old(t)@).remove(least_key(entries_map(old(t)@))),
        final(t)@.len() == old(t)@.len() - 1,
{
    let ghost s0 = t@;
    proof {
        lemma_first_is_least(s0);
    }
    let _ = t.remove(0);
    proof {
        lemma_entries_remove_map(s0, t@, 0);
    }
}


// ---------------------------------------------------------------------------
// Cache storage
// ---------------------------------------------------------------------------

/// Cache contents after storing `e` under `k`: when the cache is full and
/// `k` is new, the entry with the least key is evicted first.
pub open spec fn cache_after_put(c: Map<ReqKey, EntryView>, k: ReqKey, e: EntryView) -> Map<ReqKey, EntryView> {
    let base = if c.dom().len() >= 4096 && !c.dom().contains(k) {
        c.remove(least_key(c))
    } else {
        c
    };
    base.insert(k, e)
}

/// The named cache, or an empty one.
pub open spec fn cache_or_empty(m: Map<Seq<char>, Map<ReqKey, EntryView>>, n: Seq<char>) -> Map<ReqKey, EntryView> {
    if m.dom().contains(n) {
        m[n]
    } else {
        Map::empty()
    }
}

/// Entry stored under `k` in cache `n`.
pub open spec fn lookup(m: Map<Seq<char>, Map<ReqKey, EntryView>>, n: Seq<char>, k: ReqKey) -> Option<EntryView> {
    if m.dom().contains(n) && m[n].dom().contains(k) {
        Some(m[n][k])
    } else {
        None
    }
}

/// Why a put is refused, checked in this order: method, size, cache name.
pub open spec fn put_error(name: Seq<char>, request: ReqKey, response: ResponseView) -> Option<CacheApiError> {
    if !eq_ignore_case(request.1, "GET"@) {
        Some(CacheApiError::NonGetRequest)
    } else if response_size(response) > 2097152 {
        Some(CacheApiError::ResponseTooLarge)
    } else {
        match sanitize_cache_name_spec(name) {
            Err(e) => Some(e),
            Ok(_) => None,
        }
    }
}

/// Entry built by a put.
pub open spec fn put_entry(request: ReqKey, response: ResponseView, revision: u64, now_ms: u128) -> EntryView {
    EntryView { request, response, revision, inserted_at_ms: now_ms }
}

/// The first cache, in name order, that holds `k`.
pub open spec fn first_cache_with(names: Seq<Seq<char>>, m: Map<Seq<char>, Map<ReqKey, EntryView>>, k: ReqKey) -> Option<Seq<char>>
    decreases names.len(),
{
    if names.len() == 0 {
        None
    } else if m.dom().contains(names[0]) && m[names[0]].dom().contains(k) {
        Some(names[0])
    } else {
        first_cache_with(names.drop_first(), m, k)
    }
}

/// Strictly increasing texts.
pub open spec fn names_increasing(s: Seq<Seq<char>>) -> bool {
    forall|i: int, j: int| 0 <= i < j < s.len() ==> lex_lt(#[trigger] s[i], #[trigger] s[j])
}

/// Stores an entry in a cache's sorted entries, evicting the least key
/// first when the cache is full and the key is new.
fn put_into_entries(entries: &mut Vec<CacheApiEntry>, entry: CacheApiEntry)
    requires
        entries_ok(old(entries)@),
    ensures
        entries_ok(final(entries)@),
        entries_map(final(entries)@) == cache_after_put(entries_map(old(entries)@), entry_key(entry), entry@),
{
    let ghost c0 = entries_map(entries@);
    let ghost k = entry_key(entry);
    proof {
        lemma_entries_len(entries@);
    }
    let present = match entries_find(entries, &entry.request) {
        Ok(_) => true,
        Err(_) => false,
    };
    if entries.len() >= MAX_CACHE_ENTRIES_PER_CACHE && !present {
        entries_remove_first(entries);
        proof {
            if has_entry(entries@, k) {
                let i = entry_pos(entries@, k);
                lemma_entry_at(entries@, i);
            }
        }
    }
    assert(entries_map(entries@) == (if c0.dom().len() >= 4096 && !c0.dom().contains(k) {
        c0.remove(least_key(c0))
    } else {
        c0
    }));
    entries_insert(entries, entry);
}

/// A cache's entries: sorted and within capacity.
pub open spec fn entries_ok(v: Seq<CacheApiEntry>) -> bool {
    entries_sorted(v) && v.len() <= 4096
}

/// What a put does: refuses with `put_error`, leaving the storage as it was, or
/// bumps the revision and the put counter and stores the entry (with that
/// revision and time `now`) in the sanitized cache, creating it if needed.
pub open spec fn put_effect(
    s0: ResearchCacheStorage,
    s1: ResearchCacheStorage,
    name: Seq<char>,
    request: ReqKey,
    response: ResponseView,
    now: u128,
    r: Result<(), CacheApiError>,
) -> bool {
    match put_error(name, request, response) {
        Some(e) => {
            &&& r == Err::<(), CacheApiError>(e)
            &&& s1.caches_model() == s0.caches_model()
            &&& s1.counters() == s0.counters()
            &&& s1.revision_count() == s0.revision_count()
        },
        None => {
            let n = sanitize_cache_name_spec(name)->Ok_0;
            &&& r is Ok
            &&& s1.revision_count() == sat_sum(s0.revision_count(), 1)
            &&& s1.caches_model() == s0.caches_model().insert(
                n,
                cache_after_put(
                    cache_or_empty(s0.caches_model(), n),
                    request,
                    put_entry(request, response, s1.revision_count(), now),
                ),
            )
            &&& s1.counters() == (CacheApiMetrics {
                cache_put_calls: sat_sum(s0.counters().cache_put_calls, 1),
                ..s0.counters()
            })
        },
    }
}

/// View of a 200 text response.
pub open spec fn text_response_view(url: Seq<char>, body: Seq<char>) -> ResponseView {
    ResponseView { url: trim(url), status: 200, status_text: "OK"@, body, headers: Seq::empty() }
}

/// A successful put is read back: the cache then holds the stored response under
/// the request's key, and every other cache is unchanged.
pub proof fn lemma_put_then_match(
    s0: ResearchCacheStorage,
    s1: ResearchCacheStorage,
    name: Seq<char>,
    request: ReqKey,
    response: ResponseView,
    now: u128,
)
    requires
        put_effect(s0, s1, name, request, response, now, Ok(())),
    ensures
        lookup(s1.caches_model(), sanitize_cache_name_spec(name)->Ok_0, request) == Some(
            put_entry(request, response, s1.revision_count(), now),
        ),
        forall|other: Seq<char>| other != sanitize_cache_name_spec(name)->Ok_0 ==> #[trigger] s1.caches_model().dom().contains(
            other,
        ) == s0.caches_model().dom().contains(other) && (s0.caches_model().dom().contains(other) ==> s1.caches_model()[other]
            == s0.caches_model()[other]),
{
}

/// After deleting a request from a cache, matching it there misses.
pub proof fn lemma_delete_then_miss(m: Map<Seq<char>, Map<ReqKey, EntryView>>, n: Seq<char>, k: ReqKey)
    requires
        m.dom().contains(n),
    ensures
        lookup(m.insert(n, m[n].remove(k)), n, k) is None,
{
}

proof fn lemma_key_total(a: ReqKey, b: ReqKey)
    ensures
        a == b || key_lt(a, b) || key_lt(b, a),
{
    crate::keyed::lemma_lex_total(a.0, b.0);
    crate::keyed::lemma_lex_total(a.1, b.1);
}

proof fn lemma_set_has_least(s: Set<ReqKey>) -> (k: ReqKey)
    requires
        s.finite(),
        s.len() > 0,
    ensures
        s.contains(k),
        forall|o: ReqKey| #[trigger] s.contains(o) && o != k ==> key_lt(k, o),
    decreases s.len(),
{
    let x = s.choose();
    let rest = s.remove(x);
    if rest.len() == 0 {
        assert forall|o: ReqKey| #[trigger] s.contains(o) && o != x implies key_lt(x, o) by {
            assert(rest.contains(o));
        }
        x
    } else {
        let m = lemma_set_has_least(rest);
        lemma_key_total(x, m);
        if key_lt(x, m) {
            assert forall|o: ReqKey| #[trigger] s.contains(o) && o != x implies key_lt(x, o) by {
                assert(rest.contains(o));
                if o != m {
                    lemma_key_transitive(x, m, o);
                }
            }
            x
        } else {
            assert forall|o: ReqKey| #[trigger] s.contains(o) && o != m implies key_lt(m, o) by {
                if o != x {
                    assert(rest.contains(o));
                }
            }
            m
        }
    }
}

/// A put never takes a cache beyond 4096 entries.
pub proof fn lemma_put_bounded(c: Map<ReqKey, EntryView>, k: ReqKey, e: EntryView)
    requires
        c.dom().finite(),
        c.dom().len() <= 4096,
    ensures
        cache_after_put(c, k, e).dom().finite(),
        cache_after_put(c, k, e).dom().len() <= 4096,
{
    if c.dom().len() >= 4096 && !c.dom().contains(k) {
        let w = lemma_set_has_least(c.dom());
        assert(c.dom().contains(least_key(c))) by {
            assert(c.dom().contains(w) && forall|o: ReqKey| #[trigger] c.dom().contains(o) && o != w ==> key_lt(w, o));
        }
        assert(c.remove(least_key(c)).dom() == c.dom().remove(least_key(c)));
    }
}

/// Deterministic in-memory CacheStorage.
pub struct ResearchCacheStorage {
    caches: Vec<(String, Vec<CacheApiEntry>)>,
    revision: u64,
    metrics: CacheApiMetrics,
}

/// Views of a list of strings.
pub open spec fn name_views(v: Seq<String>) -> Seq<Seq<char>> {
    v.map_values(|s: String| s@)
}

impl ResearchCacheStorage {
    #[verifier::type_invariant]
    closed spec fn wf(self) -> bool {
        &&& keys_sorted(self.caches@)
        &&& forall|k: Seq<char>| #[trigger] table_map(self.caches@).dom().contains(k) ==> entries_ok(
            table_map(self.caches@)[k]@,
        )
    }

    /// Cache name to its entries by request key.
    pub closed spec fn caches_model(self) -> Map<Seq<char>, Map<ReqKey, EntryView>> {
        table_map(self.caches@).map_values(|v: Vec<CacheApiEntry>| entries_map(v@))
    }

    /// Cache names in increasing order.
    pub closed spec fn names(self) -> Seq<Seq<char>> {
        crate::keyed::table_keys(self.caches@)
    }

    /// Last revision handed out.
    pub closed spec fn revision_count(self) -> u64 {
        self.revision
    }

    /// The counters.
    pub closed spec fn counters(self) -> CacheApiMetrics {
        self.metrics
    }

    /// Empty storage.
    pub fn new() -> (s: Self)
        ensures
            s.caches_model() == Map::<Seq<char>, Map<ReqKey, EntryView>>::empty(),
            s.revision_count() == 0,
            s.counters() == zero_cache_metrics(),
    {
        let caches: Vec<(String, Vec<CacheApiEntry>)> = Vec::new();
        proof {
            crate::keyed::lemma_table_empty(caches@);
        }
        let s = Self { caches, revision: 0, metrics: CacheApiMetrics::default() };
        assert(s.caches_model() =~= Map::<Seq<char>, Map<ReqKey, EntryView>>::empty());
        s
    }

    proof fn lemma_model_at(self, i: int)
        requires
            self.wf(),
            0 <= i < self.caches@.len(),
        ensures
            self.caches_model().dom().contains(self.caches@[i].0@),
            self.caches_model()[self.caches@[i].0@] == entries_map(self.caches@[i].1@),
            entries_ok(self.caches@[i].1@),
            self.names()[i] == self.caches@[i].0@,
    {
        crate::keyed::lemma_table_entry(self.caches@, i);
    }

    /// Stores a 200 text response for a GET of `url`.
    pub fn put_text(&mut self, cache_name: &str, url: &str, body: &str) -> (r: Result<(), CacheApiError>)
        ensures
            exists|t: u128| #[trigger] put_effect(
                *old(self),
                *final(self),
                cache_name@,
                (trim(url@), "GET"@),
                text_response_view(trim(url@), body@),
                t,
                r,
            ),
    {
        let request = CacheApiRequest::get(url);
        let response = CacheApiResponse::text(request.url.as_str(), body);
        assert(response@.headers =~= Seq::<(String, String)>::empty());
        assert(response@ == text_response_view(trim(url@), body@));
        self.put(cache_name, request, response)
    }

    fn first_match(&self, request: &CacheApiRequest) -> (r: Option<CacheApiResponse>)
        ensures
            match (r, first_cache_with(self.names(), self.caches_model(), request_key(*request))) {
                (Some(resp), Some(n)) => resp@ == self.caches_model()[n][request_key(*request)].response,
                (None, None) => true,
                _ => false,
            },
    {
        proof {
            use_type_invariant(self);
        }
        let ghost k = request_key(*request);
        let ghost names = self.names();
        let ghost m = self.caches_model();
        let mut i: usize = 0;
        assert(names.skip(0) =~= names);
        while i < self.caches.len()
            invariant
                self.wf(),
                i <= self.caches@.len(),
                names == self.names(),
                m == self.caches_model(),
                names.len() == self.caches@.len(),
                k == request_key(*request),
                first_cache_with(names, m, k) == first_cache_with(names.skip(i as int), m, k),
            decreases self.caches.len() - i,
        {
            proof {
                self.lemma_model_at(i as int);
                assert(names.skip(i as int)[0] == names[i as int]);
                assert(names.skip(i as int).drop_first() =~= names.skip(i + 1));
            }
            match entries_find(&self.caches[i].1, request) {
                Ok(j) => {
                    proof {
                        lemma_entry_at(self.caches@[i as int].1@, j as int);
                    }
                    return Some(copy_response(&self.caches[i].1[j].response));
                },
                Err(_) => {},
            }
            i = i + 1;
        }
        assert(names.skip(i as int).len() == 0);
        None
    }

    proof fn lemma_names_model(self)
        requires
            self.wf(),
        ensures
            names_increasing(self.names()),
            forall|x: Seq<char>| #[trigger] self.caches_model().dom().contains(x) <==> self.names().contains(x),
    {
        assert forall|x: Seq<char>| #[trigger] self.caches_model().dom().contains(x) <==> self.names().contains(x) by {
            if self.caches_model().dom().contains(x) {
                let i = crate::keyed::key_pos(self.caches@, x);
                assert(self.names()[i] == x);
            }
            if self.names().contains(x) {
                let i = choose|i: int| 0 <= i < self.names().len() && self.names()[i] == x;
                self.lemma_model_at(i);
            }
        }
    }

    fn take_caches(&mut self) -> (c: Vec<(String, Vec<CacheApiEntry>)>)
        ensures
            c@ == old(self).caches@,
            keys_sorted(c@),
            forall|k: Seq<char>| #[trigger] table_map(c@).dom().contains(k) ==> entries_ok(table_map(c@)[k]@),
            final(self).caches@.len() == 0,
            final(self).revision == old(self).revision,
            final(self).metrics == old(self).metrics,
    {
        proof {
            use_type_invariant(&*self);
        }
        let mut caches: Vec<(String, Vec<CacheApiEntry>)> = Vec::new();
        std::mem::swap(&mut caches, &mut self.caches);
        caches
    }

    /// Stores a response with an explicit insertion time.
    pub fn put_at(&mut self, cache_name: &str, request: CacheApiRequest, response: CacheApiResponse, now_ms: u128) -> (r: Result<(), CacheApiError>)
        ensures
            put_effect(*old(self), *final(self), cache_name@, request_key(request), response@, now_ms, r),
            r is Ok ==> final(self).caches_model()[sanitize_cache_name_spec(cache_name@)->Ok_0].dom().len() <= 4096,
    {
        proof {
            use_type_invariant(&*self);
        }
        if !request.is_cacheable_get() {
            return Err(CacheApiError::NonGetRequest);
        }
        if response.size_bytes() > MAX_RESPONSE_BYTES {
            return Err(CacheApiError::ResponseTooLarge);
        }
        let n = match sanitize_cache_name(cache_name) {
            Ok(n) => n,
            Err(e) => {
                return Err(e);
            },
        };
        let ghost old_model = self.caches_model();
        self.metrics.cache_put_calls = self.metrics.cache_put_calls.saturating_add(1);
        self.revision = self.revision.saturating_add(1);
        let revision = self.revision;
        let nv = chars_of(n.as_str());
        let mut caches = self.take_caches();
        let mut entries = match crate::keyed::table_remove(&mut caches, nv.as_slice()) {
            Some(v) => v,
            None => {
                let v: Vec<CacheApiEntry> = Vec::new();
                proof {
                    lemma_entries_empty(v@);
                }
                v
            },
        };
        let ghost c0 = entries_map(entries@);
        assert(c0 == cache_or_empty(old_model, nv@));
        let ghost k = request_key(request);
        let ghost e = put_entry(request_key(request), response@, revision, now_ms);
        let entry = CacheApiEntry { request, response, revision, inserted_at_ms: now_ms };
        assert(entry@ == e);
        put_into_entries(&mut entries, entry);
        proof {
            lemma_entries_len(entries@);
        }
        crate::keyed::table_insert(&mut caches, n, entries);
        self.caches = caches;
        assert(self.caches_model() =~= old_model.insert(nv@, cache_after_put(c0, k, e)));
        Ok(())
    }
}

/// Cache API storage operations.
pub trait CacheApiHost {
    /// Opens or creates a named cache.
    fn open_cache(&mut self, name: &str) -> Result<(), CacheApiError>;

    /// Deletes a named cache.
    fn delete_cache(&mut self, name: &str) -> bool;

    /// Returns cache names.
    fn cache_names(&self) -> Vec<String>;

    /// Inserts a response.
    fn put(&mut self, cache_name: &str, request: CacheApiRequest, response: CacheApiResponse) -> Result<(), CacheApiError>;

    /// Matches inside one cache.
    fn match_in_cache(&mut self, cache_name: &str, request: &CacheApiRequest) -> Option<CacheApiResponse>;

    /// Matches across all caches in name order.
    fn match_any(&mut self, request: &CacheApiRequest) -> Option<CacheApiResponse>;

    /// Deletes one cached request.
    fn delete_entry(&mut self, cache_name: &str, request: &CacheApiRequest) -> bool;

    /// Returns request keys of a cache.
    fn keys(&self, cache_name: &str) -> Vec<CacheApiRequest>;

    /// Returns snapshots.
    fn snapshots(&self) -> Vec<CacheSnapshot>;

    /// Metrics.
    fn metrics(&self) -> CacheApiMetrics;
}

impl CacheApiHost for ResearchCacheStorage {
    /// Opens (creating when absent) a named cache.
    fn open_cache(&mut self, name: &str) -> (r: Result<(), CacheApiError>)
        ensures
            match sanitize_cache_name_spec(name@) {
                Err(e) => r == Err::<(), CacheApiError>(e) && final(self).caches_model() == old(self).caches_model()
                    && final(self).counters() == old(self).counters(),
                Ok(n) => r is Ok && final(self).caches_model() == (if old(self).caches_model().dom().contains(n) {
                    old(self).caches_model()
                } else {
                    old(self).caches_model().insert(n, Map::empty())
                }) && final(self).counters() == (CacheApiMetrics {
                    cache_open_calls: sat_sum(old(self).counters().cache_open_calls, 1),
                    ..old(self).counters()
                }),
            },
            final(self).revision_count() == old(self).revision_count(),
    {
        proof {
            use_type_invariant(&*self);
        }
        let n = match sanitize_cache_name(name) {
            Ok(n) => n,
            Err(e) => {
                return Err(e);
            },
        };
        self.metrics.cache_open_calls = self.metrics.cache_open_calls.saturating_add(1);
        let nv = chars_of(n.as_str());
        if !crate::keyed::table_contains(&self.caches, nv.as_slice()) {
            let ghost old_model = self.caches_model();
            let mut caches: Vec<(String, Vec<CacheApiEntry>)> = Vec::new();
            std::mem::swap(&mut caches, &mut self.caches);
            let empty: Vec<CacheApiEntry> = Vec::new();
            proof {
                lemma_entries_empty(empty@);
            }
            crate::keyed::table_insert(&mut caches, n, empty);
            self.caches = caches;
            assert(self.caches_model() =~= old_model.insert(nv@, Map::empty()));
        }
        Ok(())
    }

    /// Deletes a named cache; true when it existed.
    fn delete_cache(&mut self, name: &str) -> (r: bool)
        ensures
            match sanitize_cache_name_spec(name@) {
                Err(_) => !r && final(self).caches_model() == old(self).caches_model(),
                Ok(n) => r == old(self).caches_model().dom().contains(n) && final(self).caches_model()
                    == old(self).caches_model().remove(n),
            },
            final(self).counters() == old(self).counters(),
            final(self).revision_count() == old(self).revision_count(),
    {
        proof {
            use_type_invariant(&*self);
        }
        let n = match sanitize_cache_name(name) {
            Ok(n) => n,
            Err(_) => {
                return false;
            },
        };
        let nv = chars_of(n.as_str());
        let ghost old_model = self.caches_model();
        let mut caches: Vec<(String, Vec<CacheApiEntry>)> = Vec::new();
        std::mem::swap(&mut caches, &mut self.caches);
        let removed = crate::keyed::table_remove(&mut caches, nv.as_slice());
        self.caches = caches;
        assert(self.caches_model() =~= old_model.remove(nv@));
        removed.is_some()
    }

    /// Cache names in increasing order.
    fn cache_names(&self) -> (r: Vec<String>)
        ensures
            name_views(r@) == self.names(),
            names_increasing(self.names()),
            forall|x: Seq<char>| #[trigger] self.caches_model().dom().contains(x) <==> self.names().contains(x),
    {
        proof {
            use_type_invariant(self);
            self.lemma_names_model();
        }
        let mut r: Vec<String> = Vec::new();
        let mut i: usize = 0;
        while i < self.caches.len()
            invariant
                i <= self.caches@.len(),
                r@.len() == i,
                forall|k: int| 0 <= k < i ==> (#[trigger] r@[k])@ == self.caches@[k].0@,
            decreases self.caches.len() - i,
        {
            r.push(self.caches[i].0.clone());
            i = i + 1;
        }
        assert(name_views(r@) =~= self.names());
        r
    }


    fn put(&mut self, cache_name: &str, request: CacheApiRequest, response: CacheApiResponse) -> (r: Result<(), CacheApiError>)
        ensures
            exists|t: u128| #[trigger] put_effect(*old(self), *final(self), cache_name@, request_key(request), response@, t, r),
    {
        let now = now_ms();
        self.put_at(cache_name, request, response, now)
    }

    fn match_in_cache(&mut self, cache_name: &str, request: &CacheApiRequest) -> (r: Option<CacheApiResponse>)
        ensures
            final(self).caches_model() == old(self).caches_model(),
            final(self).revision_count() == old(self).revision_count(),
            match sanitize_cache_name_spec(cache_name@) {
                Err(_) => r is None && final(self).counters() == old(self).counters(),
                Ok(n) => {
                    &&& match (r, lookup(old(self).caches_model(), n, request_key(*request))) {
                        (Some(resp), Some(e)) => resp@ == e.response,
                        (None, None) => true,
                        _ => false,
                    }
                    &&& final(self).counters() == (CacheApiMetrics {
                        cache_match_calls: sat_sum(old(self).counters().cache_match_calls, 1),
                        cache_hits: inc_if(old(self).counters().cache_hits, r is Some),
                        cache_misses: inc_if(old(self).counters().cache_misses, r is None),
                        ..old(self).counters()
                    })
                },
            },
    {
        proof {
            use_type_invariant(&*self);
        }
        let n = match sanitize_cache_name(cache_name) {
            Ok(n) => n,
            Err(_) => {
                return None;
            },
        };
        self.metrics.cache_match_calls = self.metrics.cache_match_calls.saturating_add(1);
        let nv = chars_of(n.as_str());
        let result = match crate::keyed::table_get(&self.caches, nv.as_slice()) {
            Some(entries) => {
                match entries_find(entries, request) {
                    Ok(i) => {
                        proof {
                            lemma_entry_at(entries@, i as int);
                        }
                        Some(copy_response(&entries[i].response))
                    },
                    Err(_) => None,
                }
            },
            None => None,
        };
        if result.is_some() {
            self.metrics.cache_hits = self.metrics.cache_hits.saturating_add(1);
        } else {
            self.metrics.cache_misses = self.metrics.cache_misses.saturating_add(1);
        }
        result
    }

    fn match_any(&mut self, request: &CacheApiRequest) -> (r: Option<CacheApiResponse>)
        ensures
            final(self).caches_model() == old(self).caches_model(),
            final(self).revision_count() == old(self).revision_count(),
            match (r, first_cache_with(old(self).names(), old(self).caches_model(), request_key(*request))) {
                (Some(resp), Some(n)) => resp@ == old(self).caches_model()[n][request_key(*request)].response,
                (None, None) => true,
                _ => false,
            },
            final(self).counters() == (CacheApiMetrics {
                cache_storage_match_calls: sat_sum(old(self).counters().cache_storage_match_calls, 1),
                cache_hits: inc_if(old(self).counters().cache_hits, r is Some),
                cache_misses: inc_if(old(self).counters().cache_misses, r is None),
                ..old(self).counters()
            }),
    {
        proof {
            use_type_invariant(&*self);
        }
        self.metrics.cache_storage_match_calls = self.metrics.cache_storage_match_calls.saturating_add(1);
        let result = self.first_match(request);
        if result.is_some() {
            self.metrics.cache_hits = self.metrics.cache_hits.saturating_add(1);
        } else {
            self.metrics.cache_misses = self.metrics.cache_misses.saturating_add(1);
        }
        result
    }

    fn delete_entry(&mut self, cache_name: &str, request: &CacheApiRequest) -> (r: bool)
        ensures
            final(self).revision_count() == old(self).revision_count(),
            match sanitize_cache_name_spec(cache_name@) {
                Err(_) => !r && final(self).caches_model() == old(self).caches_model() && final(self).counters()
                    == old(self).counters(),
                Ok(n) => {
                    &&& r == (lookup(old(self).caches_model(), n, request_key(*request)) is Some)
                    &&& final(self).caches_model() == (if old(self).caches_model().dom().contains(n) {
                        old(self).caches_model().insert(n, old(self).caches_model()[n].remove(request_key(*request)))
                    } else {
                        old(self).caches_model()
                    })
                    &&& final(self).counters() == (CacheApiMetrics {
                        cache_delete_calls: sat_sum(old(self).counters().cache_delete_calls, 1),
                        ..old(self).counters()
                    })
                },
            },
    {
        proof {
            use_type_invariant(&*self);
        }
        let n = match sanitize_cache_name(cache_name) {
            Ok(n) => n,
            Err(_) => {
                return false;
            },
        };
        self.metrics.cache_delete_calls = self.metrics.cache_delete_calls.saturating_add(1);
        let nv = chars_of(n.as_str());
        let ghost old_model = self.caches_model();
        let mut caches = self.take_caches();
        match crate::keyed::table_remove(&mut caches, nv.as_slice()) {
            Some(mut entries) => {
                let removed = entries_remove(&mut entries, request);
                crate::keyed::table_insert(&mut caches, n, entries);
                self.caches = caches;
                assert(self.caches_model() =~= old_model.insert(nv@, old_model[nv@].remove(request_key(*request))));
                removed
            },
            None => {
                self.caches = caches;
                false
            },
        }
    }

    fn keys(&self, cache_name: &str) -> (r: Vec<CacheApiRequest>)
        ensures
            match sanitize_cache_name_spec(cache_name@) {
                Ok(n) if self.caches_model().dom().contains(n) => {
                    &&& forall|i: int, j: int| 0 <= i < j < r@.len() ==> key_lt(
                        #[trigger] request_key(r@[i]),
                        #[trigger] request_key(r@[j]),
                    )
                    &&& forall|i: int| 0 <= i < r@.len() ==> #[trigger] self.caches_model()[n].dom().contains(
                        request_key(r@[i]),
                    )
                    &&& forall|x: ReqKey| #[trigger] self.caches_model()[n].dom().contains(x) ==> exists|i: int|
                        0 <= i < r@.len() && request_key(#[trigger] r@[i]) == x
                },
                _ => r@.len() == 0,
            },
    {
        proof {
            use_type_invariant(self);
        }
        let n = match sanitize_cache_name(cache_name) {
            Ok(n) => n,
            Err(_) => {
                return Vec::new();
            },
        };
        let nv = chars_of(n.as_str());
        match crate::keyed::table_get(&self.caches, nv.as_slice()) {
            Some(entries) => {
                let mut r: Vec<CacheApiRequest> = Vec::new();
                let mut i: usize = 0;
                while i < entries.len()
                    invariant
                        i <= entries@.len(),
                        entries_sorted(entries@),
                        r@.len() == i,
                        forall|k: int| 0 <= k < i ==> #[trigger] r@[k] == entries@[k].request,
                    decreases entries.len() - i,
                {
                    r.push(copy_request(&entries[i].request));
                    i = i + 1;
                }
                proof {
                    assert forall|a: int| 0 <= a < r@.len() implies #[trigger] entries_map(entries@).dom().contains(
                        request_key(r@[a]),
                    ) by {
                        lemma_entry_at(entries@, a);
                    }
                    assert forall|x: ReqKey| #[trigger] entries_map(entries@).dom().contains(x) implies exists|a: int|
                        0 <= a < r@.len() && request_key(#[trigger] r@[a]) == x by {
                        let a = entry_pos(entries@, x);
                        assert(request_key(r@[a]) == x);
                    }
                    assert forall|a: int, b: int| 0 <= a < b < r@.len() implies key_lt(
                        #[trigger] request_key(r@[a]),
                        #[trigger] request_key(r@[b]),
                    ) by {
                        assert(entry_key(entries@[a]) == request_key(r@[a]));
                        assert(entry_key(entries@[b]) == request_key(r@[b]));
                    }
                }
                r
            },
            None => Vec::new(),
        }
    }

    fn snapshots(&self) -> (r: Vec<CacheSnapshot>)
        ensures
            r@.len() == self.names().len(),
            forall|i: int| 0 <= i < r@.len() ==> (#[trigger] r@[i]).name@ == self.names()[i] && entries_sorted(
                r@[i].entries@,
            ) && entries_map(r@[i].entries@) == self.caches_model()[self.names()[i]],
            forall|n: Seq<char>| #[trigger] self.caches_model().dom().contains(n) ==> self.caches_model()[n].dom().len()
                <= 4096,
    {
        proof {
            use_type_invariant(self);
            assert forall|n: Seq<char>| #[trigger] self.caches_model().dom().contains(n) implies self.caches_model()[n].dom().len()
                <= 4096 by {
                lemma_entries_len(table_map(self.caches@)[n]@);
            }
        }
        let mut r: Vec<CacheSnapshot> = Vec::new();
        let mut i: usize = 0;
        while i < self.caches.len()
            invariant
                self.wf(),
                i <= self.caches@.len(),
                r@.len() == i,
                forall|k: int| 0 <= k < i ==> (#[trigger] r@[k]).name@ == self.names()[k] && entries_sorted(
                    r@[k].entries@,
                ) && entries_map(r@[k].entries@) == self.caches_model()[self.names()[k]],
            decreases self.caches.len() - i,
        {
            proof {
                self.lemma_model_at(i as int);
            }
            let entries = copy_entries(&self.caches[i].1);
            r.push(CacheSnapshot { name: self.caches[i].0.clone(), entries });
            i = i + 1;
        }
        r
    }

    fn metrics(&self) -> (m: CacheApiMetrics)
        ensures
            m == self.counters(),
    {
        self.metrics
    }
}

fn copy_entries(v: &Vec<CacheApiEntry>) -> (r: Vec<CacheApiEntry>)
    requires
        entries_sorted(v@),
    ensures
        entries_sorted(r@),
        entries_map(r@) == entries_map(v@),
{
    let mut r: Vec<CacheApiEntry> = Vec::new();
    let mut i: usize = 0;
    while i < v.len()
        invariant
            i <= v@.len(),
            r@.len() == i,
            forall|k: int| 0 <= k < i ==> (#[trigger] r@[k])@ == v@[k]@,
        decreases v.len() - i,
    {
        r.push(copy_entry(&v[i]));
        i = i + 1;
    }
    proof {
        assert forall|k: int| 0 <= k < r@.len() implies #[trigger] entry_key(r@[k]) == entry_key(v@[k]) by {
            assert(r@[k]@.request == v@[k]@.request);
        }
        assert(entries_sorted(r@)) by {
            assert forall|a: int, b: int| 0 <= a < b < r@.len() implies key_lt(
                #[trigger] entry_key(r@[a]),
                #[trigger] entry_key(r@[b]),
            ) by {
                assert(entry_key(r@[a]) == entry_key(v@[a]));
                assert(entry_key(r@[b]) == entry_key(v@[b]));
            }
        }
        assert forall|x: ReqKey| #[trigger] entries_map(r@).dom().contains(x) <==> entries_map(v@).dom().contains(x) by {
            if entries_map(r@).dom().contains(x) {
                let a = entry_pos(r@, x);
                assert(entry_key(v@[a]) == x);
            }
            if entries_map(v@).dom().contains(x) {
                let a = entry_pos(v@, x);
                assert(entry_key(r@[a]) == x);
            }
        }
        assert forall|x: ReqKey| #[trigger] entries_map(r@).dom().contains(x) implies entries_map(r@)[x]
            == entries_map(v@)[x] by {
            let a = entry_pos(r@, x);
            lemma_entry_at(r@, a);
            assert(entry_key(v@[a]) == x);
            lemma_entry_at(v@, a);
        }
        assert(entries_map(r@) =~= entries_map(v@));
    }
    r
}

// ---------------------------------------------------------------------------
// Clock
// ---------------------------------------------------------------------------

/// `std::time::SystemTime`.
#[verifier::external_type_specification]
#[verifier::external_body]
pub struct ExSystemTime(std::time::SystemTime);

/// Reads the system clock (`SystemTime::now`); nothing is promised of the reading.
#[verifier::external_body]
fn system_now() -> std::time::SystemTime {
    std::time::SystemTime::now()
}

/// Time elapsed since the Unix epoch (`SystemTime::duration_since(UNIX_EPOCH)`);
/// `None` when the clock reads before the epoch. Nothing is promised of the value.
#[verifier::external_body]
fn since_unix_epoch(t: &std::time::SystemTime) -> Option<std::time::Duration> {
    t.duration_since(std::time::UNIX_EPOCH).ok()
}

/// Whole milliseconds of a duration (`Duration::as_millis`); nothing is promised of the value.
#[verifier::external_body]
fn duration_millis(d: &std::time::Duration) -> u128 {
    d.as_millis()
}

/// Milliseconds since the Unix epoch, or 0 when the clock reads before it.
fn now_ms() -> u128 {
    match since_unix_epoch(&system_now()) {
        Some(d) => duration_millis(&d),
        None => 0,
    }
}


// ---------------------------------------------------------------------------
// Service Worker script analysis
// ---------------------------------------------------------------------------

/// Static analysis summary for a Service Worker script.
#[derive(Debug, Clone, PartialEq, Eq)]
pub struct ServiceWorkerScriptAnalysis {
    /// An install listener was detected.
    pub has_install_listener: bool,
    /// An activate listener was detected.
    pub has_activate_listener: bool,
    /// A fetch listener was detected.
    pub has_fetch_listener: bool,
    /// Cache names mentioned through `caches.open(...)`.
    pub cache_names: Vec<String>,
    /// URLs found in `cache.addAll([...])` or `cache.add(...)`.
    pub precache_urls: Vec<String>,
    /// `skipWaiting()` is called.
    pub skip_waiting: bool,
    /// `clients.claim()` is called.
    pub clients_claim: bool,
    /// A cache-first fetch pattern was detected.
    pub cache_first_fetch: bool,
}

/// Model of an analysis.
pub struct AnalysisView {
    pub has_install_listener: bool,
    pub has_activate_listener: bool,
    pub has_fetch_listener: bool,
    pub cache_names: Seq<Seq<char>>,
    pub precache_urls: Seq<Seq<char>>,
    pub skip_waiting: bool,
    pub clients_claim: bool,
    pub cache_first_fetch: bool,
}

impl View for ServiceWorkerScriptAnalysis {
    type V = AnalysisView;

    open spec fn view(&self) -> AnalysisView {
        AnalysisView {
            has_install_listener: self.has_install_listener,
            has_activate_listener: self.has_activate_listener,
            has_fetch_listener: self.has_fetch_listener,
            cache_names: name_views(self.cache_names@),
            precache_urls: name_views(self.precache_urls@),
            skip_waiting: self.skip_waiting,
            clients_claim: self.clients_claim,
            cache_first_fetch: self.cache_first_fetch,
        }
    }
}

impl Default for ServiceWorkerScriptAnalysis {
    fn default() -> (a: Self)
        ensures
            !a.has_install_listener && !a.has_activate_listener && !a.has_fetch_listener,
            a.cache_names@.len() == 0 && a.precache_urls@.len() == 0,
            !a.skip_waiting && !a.clients_claim && !a.cache_first_fetch,
    {
        ServiceWorkerScriptAnalysis {
            has_install_listener: false,
            has_activate_listener: false,
            has_fetch_listener: false,
            cache_names: Vec::new(),
            precache_urls: Vec::new(),
            skip_waiting: false,
            clients_claim: false,
            cache_first_fetch: false,
        }
    }
}

/// UTF-8 bytes of a text.
pub open spec fn utf8(s: Seq<char>) -> Seq<u8> {
    vstd::utf8::encode_utf8(s)
}

/// `addEventListener` is called for `event`, with single or double quotes.
pub open spec fn has_listener_spec(clean: Seq<u8>, event: Seq<char>) -> bool {
    let single = "addEventListener('"@ + event + "'"@;
    let double = "addEventListener(\""@ + event + "\""@;
    ||| crate::script_scan::bytes_contains(clean, utf8(single))
    ||| crate::script_scan::bytes_contains(clean, utf8(double))
    ||| crate::script_scan::bytes_contains(clean, utf8("self."@ + single))
    ||| crate::script_scan::bytes_contains(clean, utf8("self."@ + double))
}

/// First string literal of each argument list that has one.
pub open spec fn first_literals(args: Seq<Seq<u8>>) -> Seq<Seq<char>>
    decreases args.len(),
{
    if args.len() == 0 {
        Seq::empty()
    } else {
        let rest = first_literals(args.drop_last());
        let l = crate::script_scan::literals_from(args.last(), 0);
        if l.len() > 0 {
            rest.push(l[0])
        } else {
            rest
        }
    }
}

/// All string literals of every argument list, in order.
pub open spec fn all_literals(args: Seq<Seq<u8>>) -> Seq<Seq<char>>
    decreases args.len(),
{
    if args.len() == 0 {
        Seq::empty()
    } else {
        all_literals(args.drop_last()) + crate::script_scan::literals_from(args.last(), 0)
    }
}

/// Precache URLs: the first literal of each `cache.add(...)`, then every
/// literal of each `cache.addAll(...)`.
pub open spec fn precache_spec(clean: Seq<u8>) -> Seq<Seq<char>> {
    first_literals(crate::script_scan::capture_args(clean, utf8("cache.add"@))) + all_literals(
        crate::script_scan::capture_args(clean, utf8("cache.addAll"@)),
    )
}

/// The analysis of a script.
pub open spec fn analysis_spec(source: Seq<char>) -> AnalysisView {
    let clean = crate::script_scan::strip_comments(utf8(source));
    AnalysisView {
        has_install_listener: has_listener_spec(clean, "install"@),
        has_activate_listener: has_listener_spec(clean, "activate"@),
        has_fetch_listener: has_listener_spec(clean, "fetch"@),
        cache_names: crate::script_scan::dedupe(
            first_literals(crate::script_scan::capture_args(clean, utf8("caches.open"@))),
        ),
        precache_urls: crate::script_scan::dedupe(precache_spec(clean)),
        skip_waiting: crate::script_scan::bytes_contains(clean, utf8("skipWaiting()"@))
            || crate::script_scan::bytes_contains(clean, utf8("self.skipWaiting()"@)),
        clients_claim: crate::script_scan::bytes_contains(clean, utf8("clients.claim()"@))
            || crate::script_scan::bytes_contains(clean, utf8("self.clients.claim()"@)),
        cache_first_fetch: crate::script_scan::bytes_contains(clean, utf8("caches.match("@))
            && crate::script_scan::bytes_contains(clean, utf8("respondWith"@)),
    }
}

fn contains_text(clean: &[u8], needle: &str) -> (r: bool)
    ensures
        r == crate::script_scan::bytes_contains(clean@, utf8(needle@)),
{
    crate::script_scan::contains_bytes(clean, needle.as_bytes())
}

fn has_event_listener(clean: &[u8], event_type: &str) -> (r: bool)
    ensures
        r == has_listener_spec(clean@, event_type@),
{
    let a = crate::text::concat("addEventListener('", event_type);
    let single = crate::text::concat(a.as_str(), "'");
    let b = crate::text::concat("addEventListener(\"", event_type);
    let double = crate::text::concat(b.as_str(), "\"");
    let self_single = crate::text::concat("self.", single.as_str());
    let self_double = crate::text::concat("self.", double.as_str());
    proof {
        assert("self."@ + ("addEventListener('"@ + event_type@ + "'"@) == self_single@);
    }
    contains_text(clean, single.as_str()) || contains_text(clean, double.as_str()) || contains_text(
        clean,
        self_single.as_str(),
    ) || contains_text(clean, self_double.as_str())
}

fn capture_function_first_string_arg(clean: &[u8], name: &str) -> (r: Vec<String>)
    ensures
        name_views(r@) == first_literals(crate::script_scan::capture_args(clean@, utf8(name@))),
{
    let args = crate::script_scan::capture_function_args(clean, name.as_bytes());
    let ghost all = crate::script_scan::capture_args(clean@, utf8(name@));
    let mut out: Vec<String> = Vec::new();
    let mut i: usize = 0;
    assert(all.take(0) =~= Seq::<Seq<u8>>::empty());
    while i < args.len()
        invariant
            i <= args@.len(),
            args@.len() == all.len(),
            forall|k: int| 0 <= k < args@.len() ==> #[trigger] args@[k]@ == all[k],
            name_views(out@) == first_literals(all.take(i as int)),
        decreases args.len() - i,
    {
        assert(all.take(i + 1).drop_last() =~= all.take(i as int));
        assert(all.take(i + 1).last() == args@[i as int]@);
        let lits = crate::script_scan::string_literals(args[i].as_slice());
        if lits.len() > 0 {
            out.push(lits[0].clone());
            assert(name_views(out@) =~= first_literals(all.take(i as int)).push(lits@[0]@));
        }
        i = i + 1;
    }
    assert(all.take(args.len() as int) =~= all);
    out
}

fn capture_all_string_args(clean: &[u8], name: &str) -> (r: Vec<String>)
    ensures
        name_views(r@) == all_literals(crate::script_scan::capture_args(clean@, utf8(name@))),
{
    let args = crate::script_scan::capture_function_args(clean, name.as_bytes());
    let ghost all = crate::script_scan::capture_args(clean@, utf8(name@));
    let mut out: Vec<String> = Vec::new();
    let mut i: usize = 0;
    assert(all.take(0) =~= Seq::<Seq<u8>>::empty());
    assert(name_views(out@) =~= Seq::<Seq<char>>::empty());
    while i < args.len()
        invariant
            i <= args@.len(),
            args@.len() == all.len(),
            forall|k: int| 0 <= k < args@.len() ==> #[trigger] args@[k]@ == all[k],
            name_views(out@) == all_literals(all.take(i as int)),
        decreases args.len() - i,
    {
        assert(all.take(i + 1).drop_last() =~= all.take(i as int));
        assert(all.take(i + 1).last() == args@[i as int]@);
        let lits = crate::script_scan::string_literals(args[i].as_slice());
        let ghost before = name_views(out@);
        let mut j: usize = 0;
        while j < lits.len()
            invariant
                j <= lits@.len(),
                name_views(out@) == before + name_views(lits@).take(j as int),
            decreases lits.len() - j,
        {
            let c = lits[j].clone();
            proof {
                assert(name_views(lits@).take(j + 1) =~= name_views(lits@).take(j as int).push(c@));
                assert(name_views(out@.push(c)) =~= name_views(out@).push(c@));
            }
            out.push(c);
            j = j + 1;
        }
        assert(name_views(lits@).take(lits@.len() as int) =~= crate::script_scan::literals_from(args@[i as int]@, 0));
        i = i + 1;
    }
    assert(all.take(args.len() as int) =~= all);
    out
}

fn capture_precache_urls(clean: &[u8]) -> (r: Vec<String>)
    ensures
        name_views(r@) == precache_spec(clean@),
{
    let mut urls = capture_function_first_string_arg(clean, "cache.add");
    let more = capture_all_string_args(clean, "cache.addAll");
    let ghost before = name_views(urls@);
    let mut j: usize = 0;
    while j < more.len()
        invariant
            j <= more@.len(),
            name_views(urls@) == before + name_views(more@).take(j as int),
        decreases more.len() - j,
    {
        let c = more[j].clone();
        proof {
            assert(name_views(more@).take(j + 1) =~= name_views(more@).take(j as int).push(c@));
            assert(name_views(urls@.push(c)) =~= name_views(urls@).push(c@));
        }
        urls.push(c);
        j = j + 1;
    }
    assert(name_views(more@).take(more@.len() as int) =~= name_views(more@));
    urls
}

fn dedupe_names(values: Vec<String>) -> (r: Vec<String>)
    ensures
        name_views(r@) == crate::script_scan::dedupe(name_views(values@)),
{
    let mut v = values;
    let ghost before = v@;
    crate::script_scan::dedupe_strings(&mut v);
    proof {
        assert(before.map_values(|x: String| x@) =~= name_views(before));
        assert(name_views(v@) =~= crate::script_scan::dedupe(name_views(before)));
    }
    v
}

/// Static analysis of a Service Worker script: listeners, cache names,
/// precached URLs, `skipWaiting`, `clients.claim` and the cache-first pattern.
pub fn analyze_service_worker_script(source: &str) -> (a: ServiceWorkerScriptAnalysis)
    ensures
        a@ == analysis_spec(source@),
{
    let clean_v = crate::script_scan::strip_line_comments(source.as_bytes());
    let clean = clean_v.as_slice();
    let names = capture_function_first_string_arg(clean, "caches.open");
    let urls = capture_precache_urls(clean);
    ServiceWorkerScriptAnalysis {
        has_install_listener: has_event_listener(clean, "install"),
        has_activate_listener: has_event_listener(clean, "activate"),
        has_fetch_listener: has_event_listener(clean, "fetch"),
        cache_names: dedupe_names(names),
        precache_urls: dedupe_names(urls),
        skip_waiting: contains_text(clean, "skipWaiting()") || contains_text(clean, "self.skipWaiting()"),
        clients_claim: contains_text(clean, "clients.claim()") || contains_text(clean, "self.clients.claim()"),
        cache_first_fetch: contains_text(clean, "caches.match(") && contains_text(clean, "respondWith"),
    }
}


// ---------------------------------------------------------------------------
// Service Worker registrations
// ---------------------------------------------------------------------------

/// Service Worker registration snapshot.
#[derive(Debug, Clone, PartialEq, Eq)]
pub struct ServiceWorkerRegistration {
    /// Registration id.
    pub id: ServiceWorkerRegistrationId,
    /// Script URL.
    pub script_url: String,
    /// Registration scope.
    pub scope: String,
    /// Lifecycle state.
    pub state: ServiceWorkerState,
    /// Parsed script capabilities.
    pub analysis: ServiceWorkerScriptAnalysis,
    /// Whether the worker controls matching pages.
    pub controls_clients: bool,
    /// Last error, if any.
    pub last_error: Option<String>,
}

/// Model of a registration.
pub struct RegistrationView {
    pub id: u64,
    pub script_url: Seq<char>,
    pub scope: Seq<char>,
    pub state: ServiceWorkerState,
    pub analysis: AnalysisView,
    pub controls_clients: bool,
    pub last_error: Option<Seq<char>>,
}

impl View for ServiceWorkerRegistration {
    type V = RegistrationView;

    open spec fn view(&self) -> RegistrationView {
        RegistrationView {
            id: self.id.0,
            script_url: self.script_url@,
            scope: self.scope@,
            state: self.state,
            analysis: self.analysis@,
            controls_clients: self.controls_clients,
            last_error: match self.last_error {
                Some(e) => Some(e@),
                None => None,
            },
        }
    }
}

fn copy_strings(v: &Vec<String>) -> (r: Vec<String>)
    ensures
        name_views(r@) == name_views(v@),
{
    let mut r: Vec<String> = Vec::new();
    let mut i: usize = 0;
    while i < v.len()
        invariant
            i <= v@.len(),
            r@.len() == i,
            forall|k: int| 0 <= k < i ==> (#[trigger] r@[k])@ == v@[k]@,
        decreases v.len() - i,
    {
        r.push(v[i].clone());
        i = i + 1;
    }
    assert(name_views(r@) =~= name_views(v@));
    r
}

fn copy_analysis(a: &ServiceWorkerScriptAnalysis) -> (r: ServiceWorkerScriptAnalysis)
    ensures
        r@ == a@,
{
    ServiceWorkerScriptAnalysis {
        has_install_listener: a.has_install_listener,
        has_activate_listener: a.has_activate_listener,
        has_fetch_listener: a.has_fetch_listener,
        cache_names: copy_strings(&a.cache_names),
        precache_urls: copy_strings(&a.precache_urls),
        skip_waiting: a.skip_waiting,
        clients_claim: a.clients_claim,
        cache_first_fetch: a.cache_first_fetch,
    }
}

fn copy_registration(r: &ServiceWorkerRegistration) -> (c: ServiceWorkerRegistration)
    ensures
        c@ == r@,
{
    ServiceWorkerRegistration {
        id: ServiceWorkerRegistrationId(r.id.0),
        script_url: r.script_url.clone(),
        scope: r.scope.clone(),
        state: r.state,
        analysis: copy_analysis(&r.analysis),
        controls_clients: r.controls_clients,
        last_error: match &r.last_error {
            Some(e) => Some(e.clone()),
            None => None,
        },
    }
}

/// Scope inferred from a script URL: up to and including its last `/`, else `/`.
pub open spec fn infer_scope_spec(script_url: Seq<char>) -> Seq<char> {
    let t = trim(script_url);
    match crate::text::last_index_of(t, '/') {
        Some(i) => t.take(i + 1),
        None => "/"@,
    }
}

fn infer_scope_from_script_url(script_url: &str) -> (r: String)
    ensures
        r@ == infer_scope_spec(script_url@),
{
    let t = crate::text::trim_str(script_url);
    let v = chars_of(t.as_str());
    match crate::text::last_index_of_exec(v.as_slice(), '/') {
        Some(i) => {
            proof {
                crate::text::lemma_last_index_of(v@, '/');
            }
            let p = crate::text::slice_vec(v.as_slice(), 0, i + 1);
            crate::text::string_from(p.as_slice())
        },
        None => owned("/"),
    }
}

/// A precache URL resolved against the scope: absolute and root-relative URLs
/// stay; others are appended to the scope without its trailing slashes.
pub open spec fn resolve_spec(scope: Seq<char>, url: Seq<char>) -> Seq<char> {
    let u = trim(url);
    if crate::text::starts_with(u, "http://"@) || crate::text::starts_with(u, "https://"@)
        || crate::text::starts_with(u, "/"@) {
        u
    } else {
        crate::text::strip_end(scope, '/') + "/"@ + u
    }
}

fn resolve_scope_url(scope: &str, url: &str) -> (r: String)
    ensures
        r@ == resolve_spec(scope@, url@),
{
    let u = crate::text::trim_str(url);
    if crate::text::str_starts_with(u.as_str(), "http://") || crate::text::str_starts_with(u.as_str(), "https://")
        || crate::text::str_starts_with(u.as_str(), "/") {
        return u;
    }
    let sv = chars_of(scope);
    let base = crate::text::strip_end_chars(sv.as_slice(), '/');
    let mut r = crate::text::string_from(base.as_slice());
    crate::text::append_str(&mut r, "/");
    crate::text::append_str(&mut r, u.as_str());
    r
}

/// Body stored for a precached URL.
pub open spec fn precache_body(resolved: Seq<char>) -> Seq<char> {
    "service-worker-precache:"@ + resolved
}

/// The registration is active, controls clients, and its scope prefixes the URL.
pub open spec fn controls_url(r: RegistrationView, url: Seq<char>) -> bool {
    r.state == ServiceWorkerState::Activated && r.controls_clients && crate::text::starts_with(url, r.scope)
}

/// Among registrations (in scope order) controlling `url`, the one with the
/// longest scope; the last such on ties.
pub open spec fn best_controller(scopes: Seq<Seq<char>>, regs: Map<Seq<char>, RegistrationView>, url: Seq<char>) -> Option<Seq<char>>
    decreases scopes.len(),
{
    if scopes.len() == 0 {
        None
    } else {
        let prev = best_controller(scopes.drop_last(), regs, url);
        let sc = scopes.last();
        if controls_url(regs[sc], url) {
            match prev {
                Some(p) => if regs[p].scope.len() <= regs[sc].scope.len() {
                    Some(sc)
                } else {
                    prev
                },
                None => Some(sc),
            }
        } else {
            prev
        }
    }
}

/// Service Worker host operations.
pub trait ServiceWorkerHost {
    /// Registers or updates a Service Worker.
    fn register_service_worker(&mut self, script_url: String, scope: Option<String>) -> Result<ServiceWorkerRegistration, CacheApiError>;

    /// Unregisters the Service Worker of a scope.
    fn unregister_scope(&mut self, scope: &str) -> bool;

    /// Updates the registration of a scope.
    fn update_scope(&mut self, scope: &str) -> Result<Option<ServiceWorkerRegistration>, CacheApiError>;

    /// The registration controlling a client URL.
    fn controller_for_url(&self, url: &str) -> Option<ServiceWorkerRegistration>;

    /// The registration of a scope.
    fn registration_for_scope(&self, scope: &str) -> Option<ServiceWorkerRegistration>;

    /// All registrations.
    fn registrations(&self) -> Vec<ServiceWorkerRegistration>;

    /// Attempts to answer a fetch from the controlling worker's caches.
    fn intercept_fetch(&mut self, request: &CacheApiRequest) -> Option<CacheApiResponse>;

    /// Metrics.
    fn metrics(&self) -> CacheApiMetrics;
}

/// Deterministic Service Worker host backed by a `ResearchCacheStorage`.
pub struct ResearchServiceWorkerHost {
    cache: ResearchCacheStorage,
    scripts: Vec<(String, String)>,
    next_registration: u64,
    registrations: Vec<(String, ServiceWorkerRegistration)>,
    metrics: CacheApiMetrics,
}

impl ResearchServiceWorkerHost {
    #[verifier::type_invariant]
    closed spec fn wf(self) -> bool {
        &&& keys_sorted(self.scripts@)
        &&& keys_sorted(self.registrations@)
        &&& forall|k: Seq<char>| #[trigger] table_map(self.registrations@).dom().contains(k) ==> controls_by_rule(
            table_map(self.registrations@)[k]@,
        )
    }

    /// Script URL to source.
    pub closed spec fn scripts_model(self) -> Map<Seq<char>, Seq<char>> {
        table_map(self.scripts@).map_values(|s: String| s@)
    }

    /// Scope to registration.
    pub closed spec fn regs_model(self) -> Map<Seq<char>, RegistrationView> {
        table_map(self.registrations@).map_values(|r: ServiceWorkerRegistration| r@)
    }

    /// Registered scopes in increasing order.
    pub closed spec fn scopes(self) -> Seq<Seq<char>> {
        crate::keyed::table_keys(self.registrations@)
    }

    /// The cache storage.
    pub closed spec fn cache_state(self) -> ResearchCacheStorage {
        self.cache
    }

    /// Id the next new registration gets.
    pub closed spec fn next_id(self) -> u64 {
        self.next_registration
    }

    /// Counters kept by the host itself (the cache keeps its own).
    pub closed spec fn own_counters(self) -> CacheApiMetrics {
        self.metrics
    }

    /// Creates a host over an existing cache storage.
    pub fn new(cache: ResearchCacheStorage) -> (h: Self)
        ensures
            h.cache_state() == cache,
            h.scripts_model() == Map::<Seq<char>, Seq<char>>::empty(),
            h.regs_model() == Map::<Seq<char>, RegistrationView>::empty(),
            h.next_id() == 1,
            h.own_counters() == zero_cache_metrics(),
    {
        let scripts: Vec<(String, String)> = Vec::new();
        let registrations: Vec<(String, ServiceWorkerRegistration)> = Vec::new();
        proof {
            crate::keyed::lemma_table_empty(scripts@);
            crate::keyed::lemma_table_empty(registrations@);
        }
        let h = Self { cache, scripts, next_registration: 1, registrations, metrics: CacheApiMetrics::default() };
        assert(h.scripts_model() =~= Map::<Seq<char>, Seq<char>>::empty());
        assert(h.regs_model() =~= Map::<Seq<char>, RegistrationView>::empty());
        h
    }

    /// Registers the source served for a script URL (trimmed).
    pub fn register_script(&mut self, url: &str, source: &str)
        ensures
            final(self).scripts_model() == old(self).scripts_model().insert(trim(url@), source@),
            final(self).regs_model() == old(self).regs_model(),
            final(self).scopes() == old(self).scopes(),
            final(self).cache_state() == old(self).cache_state(),
            final(self).next_id() == old(self).next_id(),
            final(self).own_counters() == old(self).own_counters(),
    {
        proof {
            use_type_invariant(&*self);
        }
        let ghost old_model = self.scripts_model();
        let mut scripts: Vec<(String, String)> = Vec::new();
        std::mem::swap(&mut scripts, &mut self.scripts);
        let key = normalize_url_string(url);
        let ghost k = key@;
        crate::keyed::table_insert(&mut scripts, key, owned(source));
        self.scripts = scripts;
        assert(self.scripts_model() =~= old_model.insert(k, source@));
    }

    /// Returns the cache storage.
    pub fn cache_storage(&self) -> (c: &ResearchCacheStorage)
        ensures
            *c == self.cache_state(),
    {
        &self.cache
    }

    fn load_script(&self, script_url: &str) -> (r: Option<String>)
        ensures
            match r {
                Some(src) => self.scripts_model().dom().contains(trim(script_url@)) && self.scripts_model()[trim(
                    script_url@,
                )] == src@,
                None => !self.scripts_model().dom().contains(trim(script_url@)),
            },
    {
        proof {
            use_type_invariant(self);
        }
        let key = normalize_url_string(script_url);
        let kv = chars_of(key.as_str());
        match crate::keyed::table_get(&self.scripts, kv.as_slice()) {
            Some(src) => Some(src.clone()),
            None => None,
        }
    }

    proof fn lemma_reg_at(self, i: int)
        requires
            self.wf(),
            0 <= i < self.registrations@.len(),
        ensures
            self.regs_model().dom().contains(self.registrations@[i].0@),
            self.regs_model()[self.registrations@[i].0@] == self.registrations@[i].1@,
            self.scopes()[i] == self.registrations@[i].0@,
            self.scopes().len() == self.registrations@.len(),
    {
        crate::keyed::lemma_table_entry(self.registrations@, i);
    }
}


/// `x` after `k` saturating increments.
pub open spec fn sat_plus(x: u64, k: nat) -> u64 {
    if x + k > u64::MAX {
        u64::MAX
    } else {
        (x + k) as u64
    }
}

/// Source registered for a script URL, or empty.
pub open spec fn script_source(scripts: Map<Seq<char>, Seq<char>>, script_url: Seq<char>) -> Seq<char> {
    if scripts.dom().contains(trim(script_url)) {
        scripts[trim(script_url)]
    } else {
        Seq::empty()
    }
}

/// Cache a worker precaches into: its first opened cache, else `default`.
pub open spec fn worker_cache_name(a: AnalysisView) -> Seq<char> {
    if a.cache_names.len() > 0 {
        a.cache_names[0]
    } else {
        "default"@
    }
}

/// Every precached body fits in a cache entry.
pub open spec fn precache_fits(scope: Seq<char>, urls: Seq<Seq<char>>) -> bool {
    forall|i: int| 0 <= i < urls.len() ==> byte_len(#[trigger] precache_body(resolve_spec(scope, urls[i]))) <= 2097152
}

/// Why precaching fails: the cache name, or a body too large.
pub open spec fn precache_error(a: AnalysisView, scope: Seq<char>) -> Option<CacheApiError> {
    match sanitize_cache_name_spec(worker_cache_name(a)) {
        Err(e) => Some(e),
        Ok(_) => if precache_fits(scope, a.precache_urls) {
            None
        } else {
            Some(CacheApiError::ResponseTooLarge)
        },
    }
}

/// Key and response stored for one precached URL.
pub open spec fn precache_key(scope: Seq<char>, url: Seq<char>) -> ReqKey {
    (trim(resolve_spec(scope, url)), "GET"@)
}

/// Cache model after storing each precached URL in turn into cache `n`.
pub open spec fn precache_model(
    m: Map<Seq<char>, Map<ReqKey, EntryView>>,
    n: Seq<char>,
    scope: Seq<char>,
    urls: Seq<Seq<char>>,
    rev: u64,
    times: Seq<u128>,
) -> Map<Seq<char>, Map<ReqKey, EntryView>>
    decreases urls.len(),
{
    if urls.len() == 0 {
        m
    } else {
        let prev = precache_model(m, n, scope, urls.drop_last(), rev, times);
        let r = resolve_spec(scope, urls.last());
        let k = precache_key(scope, urls.last());
        prev.insert(
            n,
            cache_after_put(
                cache_or_empty(prev, n),
                k,
                put_entry(k, text_response_view(trim(r), precache_body(r)), sat_plus(rev, urls.len()), times[urls.len() - 1]),
            ),
        )
    }
}

/// The model after opening cache `n`: unchanged if present, else with an empty cache.
pub open spec fn opened_model(m: Map<Seq<char>, Map<ReqKey, EntryView>>, n: Seq<char>) -> Map<Seq<char>, Map<ReqKey, EntryView>> {
    if m.dom().contains(n) {
        m
    } else {
        m.insert(n, Map::empty())
    }
}

/// What precaching did to the cache storage: the worker's cache opened, then
/// every precache URL stored with its own revision and some insertion time.
pub open spec fn precached(c0: ResearchCacheStorage, c1: ResearchCacheStorage, a: AnalysisView, scope: Seq<char>) -> bool {
    let n = sanitize_cache_name_spec(worker_cache_name(a))->Ok_0;
    let m_open = opened_model(c0.caches_model(), n);
    let k = a.precache_urls.len();
    &&& exists|times: Seq<u128>| times.len() == k && c1.caches_model() == #[trigger] precache_model(
        m_open,
        n,
        scope,
        a.precache_urls,
        c0.revision_count(),
        times,
    )
    &&& c1.revision_count() == sat_plus(c0.revision_count(), k)
    &&& c1.counters() == (CacheApiMetrics {
        cache_open_calls: sat_sum(c0.counters().cache_open_calls, 1),
        cache_put_calls: sat_plus(c0.counters().cache_put_calls, k),
        ..c0.counters()
    })
}

fn precache(cache: &mut ResearchCacheStorage, metrics: &mut CacheApiMetrics, analysis: &ServiceWorkerScriptAnalysis, scope: &str) -> (r: Result<(), CacheApiError>)
    ensures
        match precache_error(analysis@, scope@) {
            Some(e) => r == Err::<(), CacheApiError>(e),
            None => {
                &&& r is Ok
                &&& precached(*old(cache), *final(cache), analysis@, scope@)
                &&& *final(metrics) == (CacheApiMetrics {
                    cache_add_calls: sat_plus(old(metrics).cache_add_calls, analysis@.precache_urls.len()),
                    ..*old(metrics)
                })
            },
        },
{
    let cache_name = if analysis.cache_names.len() > 0 {
        analysis.cache_names[0].clone()
    } else {
        owned("default")
    };
    assert(cache_name@ == worker_cache_name(analysis@));
    match cache.open_cache(cache_name.as_str()) {
        Ok(()) => {},
        Err(e) => {
            return Err(e);
        },
    }
    let ghost n = sanitize_cache_name_spec(cache_name@)->Ok_0;
    let ghost c_open = *cache;
    let ghost m_open = cache.caches_model();
    let ghost urls = analysis@.precache_urls;
    let ghost mut times: Seq<u128> = Seq::empty();
    let ghost rev0 = cache.revision_count();
    let ghost put0 = cache.counters().cache_put_calls;
    let ghost m0 = *metrics;
    let mut i: usize = 0;
    assert(urls.take(0) =~= Seq::<Seq<char>>::empty());
    while i < analysis.precache_urls.len()
        invariant
            i <= urls.len(),
            urls == analysis@.precache_urls,
            urls.len() == analysis.precache_urls@.len(),
            sanitize_cache_name_spec(cache_name@) == Ok::<Seq<char>, CacheApiError>(n),
            cache_name@ == worker_cache_name(analysis@),
            m_open == (if old(cache).caches_model().dom().contains(n) {
                old(cache).caches_model()
            } else {
                old(cache).caches_model().insert(n, Map::empty())
            }),
            rev0 == old(cache).revision_count(),
            c_open.counters() == (CacheApiMetrics {
                cache_open_calls: sat_sum(old(cache).counters().cache_open_calls, 1),
                ..old(cache).counters()
            }),
            put0 == old(cache).counters().cache_put_calls,
            m0 == *old(metrics),
            forall|j: int| 0 <= j < i ==> byte_len(#[trigger] precache_body(resolve_spec(scope@, urls[j]))) <= 2097152,
            times.len() == i,
            cache.caches_model() == precache_model(m_open, n, scope@, urls.take(i as int), rev0, times),
            cache.revision_count() == sat_plus(rev0, i as nat),
            cache.counters() == (CacheApiMetrics {
                cache_put_calls: sat_plus(put0, i as nat),
                ..c_open.counters()
            }),
            *metrics == (CacheApiMetrics { cache_add_calls: sat_plus(m0.cache_add_calls, i as nat), ..m0 }),
        decreases analysis.precache_urls.len() - i,
    {
        let resolved = resolve_scope_url(scope, analysis.precache_urls[i].as_str());
        let body = crate::text::concat("service-worker-precache:", resolved.as_str());
        let ghost before = *cache;
        let res = cache.put_text(cache_name.as_str(), resolved.as_str(), body.as_str());
        proof {
            assert(urls[i as int] == analysis.precache_urls@[i as int]@);
            assert(resolved@ == resolve_spec(scope@, urls[i as int]));
            assert(body@ == precache_body(resolved@));
            assert(headers_weight(Seq::<(String, String)>::empty()) == 0);
            assert(eq_ignore_case("GET"@, "GET"@));
            let t = choose|t: u128| #[trigger] put_effect(
                before,
                *cache,
                cache_name@,
                (trim(resolved@), "GET"@),
                text_response_view(trim(resolved@), body@),
                t,
                res,
            );
            if res is Ok {
                lemma_precache_step(m_open, n, scope@, urls, i as int, rev0, times, t);
                times = times.push(t);
            }
        }
        match res {
            Ok(()) => {},
            Err(e) => {
                proof {
                    let t = choose|t: u128| #[trigger] put_effect(
                        before,
                        *cache,
                        cache_name@,
                        (trim(resolved@), "GET"@),
                        text_response_view(trim(resolved@), body@),
                        t,
                        res,
                    );
                    assert(put_effect(
                        before,
                        *cache,
                        cache_name@,
                        (trim(resolved@), "GET"@),
                        text_response_view(trim(resolved@), body@),
                        t,
                        res,
                    ));
                    assert(byte_len(precache_body(resolve_spec(scope@, urls[i as int]))) > 2097152);
                    assert(!precache_fits(scope@, urls));
                }
                return Err(e);
            },
        }
        metrics.cache_add_calls = metrics.cache_add_calls.saturating_add(1);
        i = i + 1;
    }
    assert(urls.take(urls.len() as int) =~= urls);
    assert(c_open.counters().cache_open_calls == sat_sum(old(cache).counters().cache_open_calls, 1));
    assert(precache_model(m_open, n, scope@, urls, rev0, times) == cache.caches_model());
    assert(m_open == (if old(cache).caches_model().dom().contains(n) {
        old(cache).caches_model()
    } else {
        old(cache).caches_model().insert(n, Map::empty())
    }));
    assert(rev0 == old(cache).revision_count());
    assert(precache_fits(scope@, urls));
    assert(times.len() == analysis@.precache_urls.len());
    assert(cache.revision_count() == sat_plus(old(cache).revision_count(), analysis@.precache_urls.len()));
    assert(cache.counters() == (CacheApiMetrics {
        cache_open_calls: sat_sum(old(cache).counters().cache_open_calls, 1),
        cache_put_calls: sat_plus(old(cache).counters().cache_put_calls, analysis@.precache_urls.len()),
        ..old(cache).counters()
    }));
    proof {
        let n2 = sanitize_cache_name_spec(worker_cache_name(analysis@))->Ok_0;
        assert(n2 == n);
        assert(opened_model(old(cache).caches_model(), n2) == m_open);
        assert(urls == analysis@.precache_urls);
        assert(cache.caches_model() == precache_model(
            opened_model(old(cache).caches_model(), n2),
            n2,
            scope@,
            analysis@.precache_urls,
            old(cache).revision_count(),
            times,
        ));
    }
    assert(precached(*old(cache), *cache, analysis@, scope@));
    assert(*metrics == (CacheApiMetrics {
        cache_add_calls: sat_plus(old(metrics).cache_add_calls, analysis@.precache_urls.len()),
        ..*old(metrics)
    }));
    Ok(())
}

proof fn lemma_precache_step(
    m: Map<Seq<char>, Map<ReqKey, EntryView>>,
    n: Seq<char>,
    scope: Seq<char>,
    urls: Seq<Seq<char>>,
    i: int,
    rev: u64,
    times: Seq<u128>,
    t: u128,
)
    requires
        0 <= i < urls.len(),
        times.len() == i,
    ensures
        precache_model(m, n, scope, urls.take(i + 1), rev, times.push(t)) == ({
            let prev = precache_model(m, n, scope, urls.take(i), rev, times);
            let r = resolve_spec(scope, urls[i]);
            let k = precache_key(scope, urls[i]);
            prev.insert(
                n,
                cache_after_put(
                    cache_or_empty(prev, n),
                    k,
                    put_entry(k, text_response_view(trim(r), precache_body(r)), sat_plus(rev, (i + 1) as nat), t),
                ),
            )
        }),
{
    assert(urls.take(i + 1).drop_last() =~= urls.take(i));
    assert(urls.take(i + 1).last() == urls[i]);
    lemma_precache_model_prefix(m, n, scope, urls.take(i), rev, times, times.push(t));
}

proof fn lemma_precache_model_prefix(
    m: Map<Seq<char>, Map<ReqKey, EntryView>>,
    n: Seq<char>,
    scope: Seq<char>,
    urls: Seq<Seq<char>>,
    rev: u64,
    t1: Seq<u128>,
    t2: Seq<u128>,
)
    requires
        t1.len() >= urls.len(),
        t2.len() >= urls.len(),
        forall|j: int| 0 <= j < urls.len() ==> t1[j] == t2[j],
    ensures
        precache_model(m, n, scope, urls, rev, t1) == precache_model(m, n, scope, urls, rev, t2),
    decreases urls.len(),
{
    if urls.len() > 0 {
        lemma_precache_model_prefix(m, n, scope, urls.drop_last(), rev, t1, t2);
    }
}


/// A registration controls clients exactly when its script claims clients,
/// skips waiting or listens for fetches.
pub open spec fn controls_by_rule(r: RegistrationView) -> bool {
    r.controls_clients == (r.analysis.clients_claim || r.analysis.skip_waiting || r.analysis.has_fetch_listener)
}

/// Scope of a registration: the given scope trimmed, else inferred from the script URL.
pub open spec fn registration_scope(script_url: Seq<char>, scope: Option<Seq<char>>) -> Seq<char> {
    match scope {
        Some(s) => trim(s),
        None => infer_scope_spec(trim(script_url)),
    }
}

/// The registration made for a script at a scope.
pub open spec fn expected_registration(h: ResearchServiceWorkerHost, script_url: Seq<char>, scope: Seq<char>, a: AnalysisView) -> RegistrationView {
    RegistrationView {
        id: if h.regs_model().dom().contains(scope) {
            h.regs_model()[scope].id
        } else {
            h.next_id()
        },
        script_url,
        scope,
        state: ServiceWorkerState::Activated,
        analysis: a,
        controls_clients: a.clients_claim || a.skip_waiting || a.has_fetch_listener,
        last_error: None,
    }
}

/// What registering a (normalized) script URL at a (normalized) scope does:
/// analyze the script, precache into its cache, then record the registration.
pub open spec fn registered(
    h0: ResearchServiceWorkerHost,
    h1: ResearchServiceWorkerHost,
    script_url: Seq<char>,
    scope: Seq<char>,
    r: Result<ServiceWorkerRegistration, CacheApiError>,
) -> bool {
    let a = analysis_spec(script_source(h0.scripts_model(), script_url));
    &&& h1.scripts_model() == h0.scripts_model()
    &&& match precache_error(a, scope) {
        Some(e) => {
            &&& r == Err::<ServiceWorkerRegistration, CacheApiError>(e)
            &&& h1.regs_model() == h0.regs_model()
            &&& h1.scopes() == h0.scopes()
            &&& h1.next_id() == h0.next_id()
        },
        None => {
            &&& r is Ok
            &&& r->Ok_0@ == expected_registration(h0, script_url, scope, a)
            &&& h1.regs_model() == h0.regs_model().insert(scope, r->Ok_0@)
            &&& h1.next_id() == (if h0.regs_model().dom().contains(scope) {
                h0.next_id()
            } else {
                sat_sum(h0.next_id(), 1)
            })
            &&& precached(h0.cache_state(), h1.cache_state(), a, scope)
        },
    }
}

impl ResearchServiceWorkerHost {
    fn analyze_and_precache(&mut self, script_url: &str, scope: &str) -> (r: Result<ServiceWorkerScriptAnalysis, CacheApiError>)
        ensures
            final(self).scripts_model() == old(self).scripts_model(),
            final(self).regs_model() == old(self).regs_model(),
            final(self).scopes() == old(self).scopes(),
            final(self).next_id() == old(self).next_id(),
            match precache_error(analysis_spec(script_source(old(self).scripts_model(), script_url@)), scope@) {
                Some(e) => r == Err::<ServiceWorkerScriptAnalysis, CacheApiError>(e),
                None => {
                    let a = analysis_spec(script_source(old(self).scripts_model(), script_url@));
                    &&& r is Ok
                    &&& r->Ok_0@ == a
                    &&& precached(old(self).cache_state(), final(self).cache_state(), a, scope@)
                    &&& final(self).own_counters() == (CacheApiMetrics {
                        cache_add_calls: sat_plus(old(self).own_counters().cache_add_calls, a.precache_urls.len()),
                        ..old(self).own_counters()
                    })
                },
            },
    {
        let source = match self.load_script(script_url) {
            Some(s) => s,
            None => String::new(),
        };
        assert(source@ == script_source(self.scripts_model(), script_url@));
        let analysis = analyze_service_worker_script(source.as_str());
        proof {
            use_type_invariant(&*self);
        }
        let mut cache = ResearchCacheStorage::new();
        std::mem::swap(&mut cache, &mut self.cache);
        let mut metrics = self.metrics;
        let r = precache(&mut cache, &mut metrics, &analysis, scope);
        self.cache = cache;
        self.metrics = metrics;
        match r {
            Ok(()) => Ok(analysis),
            Err(e) => Err(e),
        }
    }

    fn register_at(&mut self, script_url: String, scope: String) -> (r: Result<ServiceWorkerRegistration, CacheApiError>)
        ensures
            registered(*old(self), *final(self), script_url@, scope@, r),
            final(self).own_counters() == (match r {
                Ok(_) => CacheApiMetrics {
                    service_worker_registrations: sat_sum(old(self).own_counters().service_worker_registrations, 1),
                    cache_add_calls: sat_plus(
                        old(self).own_counters().cache_add_calls,
                        analysis_spec(script_source(old(self).scripts_model(), script_url@)).precache_urls.len(),
                    ),
                    ..old(self).own_counters()
                },
                Err(_) => final(self).own_counters(),
            }),
    {
        let analysis = match self.analyze_and_precache(script_url.as_str(), scope.as_str()) {
            Ok(a) => a,
            Err(e) => {
                return Err(e);
            },
        };
        proof {
            use_type_invariant(&*self);
        }
        let ghost h1 = *self;
        self.metrics.service_worker_registrations = self.metrics.service_worker_registrations.saturating_add(1);
        let sv = chars_of(scope.as_str());
        let id = match crate::keyed::table_get(&self.registrations, sv.as_slice()) {
            Some(existing) => existing.id.0,
            None => {
                let id = self.next_registration;
                self.next_registration = self.next_registration.saturating_add(1);
                id
            },
        };
        let controls_clients = analysis.clients_claim || analysis.skip_waiting || analysis.has_fetch_listener;
        let registration = ServiceWorkerRegistration {
            id: ServiceWorkerRegistrationId(id),
            script_url,
            scope: scope.clone(),
            state: ServiceWorkerState::Activated,
            analysis,
            controls_clients,
            last_error: None,
        };
        let stored = copy_registration(&registration);
        let ghost old_regs = self.regs_model();
        let mut regs: Vec<(String, ServiceWorkerRegistration)> = Vec::new();
        std::mem::swap(&mut regs, &mut self.registrations);
        crate::keyed::table_insert(&mut regs, scope, stored);
        self.registrations = regs;
        assert(self.regs_model() =~= old_regs.insert(sv@, registration@));
        Ok(registration)
    }

    fn take_registrations(&mut self) -> (regs: Vec<(String, ServiceWorkerRegistration)>)
        ensures
            regs@ == old(self).registrations@,
            keys_sorted(regs@),
            forall|k: Seq<char>| #[trigger] table_map(regs@).dom().contains(k) ==> controls_by_rule(table_map(regs@)[k]@),
            final(self).registrations@.len() == 0,
            final(self).cache == old(self).cache,
            final(self).scripts == old(self).scripts,
            final(self).next_registration == old(self).next_registration,
            final(self).metrics == old(self).metrics,
    {
        proof {
            use_type_invariant(&*self);
        }
        let mut regs: Vec<(String, ServiceWorkerRegistration)> = Vec::new();
        std::mem::swap(&mut regs, &mut self.registrations);
        regs
    }
}

impl Default for ResearchCacheStorage {
    fn default() -> (s: Self)
        ensures
            s.caches_model() == Map::<Seq<char>, Map<ReqKey, EntryView>>::empty(),
            s.revision_count() == 0,
            s.counters() == zero_cache_metrics(),
    {
        Self::new()
    }
}

impl Default for ResearchServiceWorkerHost {
    fn default() -> (h: Self)
        ensures
            h.cache_state().caches_model() == Map::<Seq<char>, Map<ReqKey, EntryView>>::empty(),
            h.scripts_model() == Map::<Seq<char>, Seq<char>>::empty(),
            h.regs_model() == Map::<Seq<char>, RegistrationView>::empty(),
            h.next_id() == 1,
            h.own_counters() == zero_cache_metrics(),
    {
        Self::new(ResearchCacheStorage::new())
    }
}


impl ServiceWorkerHost for ResearchServiceWorkerHost {
    fn register_service_worker(&mut self, script_url: String, scope: Option<String>) -> (r: Result<ServiceWorkerRegistration, CacheApiError>)
        ensures
            registered(
                *old(self),
                *final(self),
                trim(script_url@),
                registration_scope(
                    script_url@,
                    match scope {
                        Some(s) => Some(s@),
                        None => None,
                    },
                ),
                r,
            ),
            final(self).own_counters() == (match r {
                Ok(_) => CacheApiMetrics {
                    service_worker_registrations: sat_sum(old(self).own_counters().service_worker_registrations, 1),
                    cache_add_calls: sat_plus(
                        old(self).own_counters().cache_add_calls,
                        analysis_spec(script_source(old(self).scripts_model(), trim(script_url@))).precache_urls.len(),
                    ),
                    ..old(self).own_counters()
                },
                Err(_) => final(self).own_counters(),
            }),
    {
        let script_url = normalize_url_string(script_url.as_str());
        let scope = match scope {
            Some(value) => normalize_url_string(value.as_str()),
            None => infer_scope_from_script_url(script_url.as_str()),
        };
        self.register_at(script_url, scope)
    }

    fn unregister_scope(&mut self, scope: &str) -> (r: bool)
        ensures
            r == old(self).regs_model().dom().contains(trim(scope@)),
            final(self).regs_model() == old(self).regs_model().remove(trim(scope@)),
            final(self).own_counters() == (CacheApiMetrics {
                service_worker_unregistrations: inc_if(old(self).own_counters().service_worker_unregistrations, r),
                ..old(self).own_counters()
            }),
            final(self).scripts_model() == old(self).scripts_model(),
            final(self).cache_state() == old(self).cache_state(),
            final(self).next_id() == old(self).next_id(),
    {
        proof {
            use_type_invariant(&*self);
        }
        let key = normalize_url_string(scope);
        let kv = chars_of(key.as_str());
        let ghost old_regs = self.regs_model();
        let mut regs = self.take_registrations();
        let removed = crate::keyed::table_remove(&mut regs, kv.as_slice()).is_some();
        self.registrations = regs;
        assert(self.regs_model() =~= old_regs.remove(kv@));
        if removed {
            self.metrics.service_worker_unregistrations = self.metrics.service_worker_unregistrations.saturating_add(1);
        }
        removed
    }

    fn update_scope(&mut self, scope: &str) -> (r: Result<Option<ServiceWorkerRegistration>, CacheApiError>)
        ensures
            !old(self).regs_model().dom().contains(trim(scope@)) ==> r == Ok::<Option<ServiceWorkerRegistration>, CacheApiError>(None)
                && *final(self) == *old(self),
            old(self).regs_model().dom().contains(trim(scope@)) ==> match r {
                Ok(Some(reg)) => registered(
                    *old(self),
                    *final(self),
                    trim(old(self).regs_model()[trim(scope@)].script_url),
                    trim(scope@),
                    Ok(reg),
                ),
                Ok(None) => false,
                Err(e) => registered(
                    *old(self),
                    *final(self),
                    trim(old(self).regs_model()[trim(scope@)].script_url),
                    trim(scope@),
                    Err(e),
                ),
            },
    {
        proof {
            use_type_invariant(&*self);
        }
        let key = normalize_url_string(scope);
        let kv = chars_of(key.as_str());
        let script_url = match crate::keyed::table_get(&self.registrations, kv.as_slice()) {
            Some(existing) => existing.script_url.clone(),
            None => {
                return Ok(None);
            },
        };
        self.metrics.service_worker_updates = self.metrics.service_worker_updates.saturating_add(1);
        let normalized = normalize_url_string(script_url.as_str());
        match self.register_at(normalized, key) {
            Ok(reg) => Ok(Some(reg)),
            Err(e) => Err(e),
        }
    }

    fn controller_for_url(&self, url: &str) -> (r: Option<ServiceWorkerRegistration>)
        ensures
            match (r, best_controller(self.scopes(), self.regs_model(), trim(url@))) {
                (Some(reg), Some(sc)) => reg@ == self.regs_model()[sc] && controls_by_rule(reg@),
                (None, None) => true,
                _ => false,
            },
    {
        proof {
            use_type_invariant(self);
        }
        let u = normalize_url_string(url);
        let ghost uv = u@;
        let mut best: Option<usize> = None;
        let mut i: usize = 0;
        while i < self.registrations.len()
            invariant
                self.wf(),
                i <= self.registrations@.len(),
                uv == trim(url@),
                u@ == uv,
                match best {
                    Some(j) => j < i && best_controller(self.scopes().take(i as int), self.regs_model(), uv) == Some(
                        self.scopes()[j as int],
                    ),
                    None => best_controller(self.scopes().take(i as int), self.regs_model(), uv) is None,
                },
            decreases self.registrations.len() - i,
        {
            proof {
                self.lemma_reg_at(i as int);
                assert(self.scopes().take(i + 1).drop_last() =~= self.scopes().take(i as int));
                assert(self.scopes().take(i + 1).last() == self.scopes()[i as int]);
            }
            let reg = &self.registrations[i].1;
            let ghost sc = self.scopes()[i as int];
            assert(self.regs_model()[sc] == reg@);
            if reg.state == ServiceWorkerState::Activated && reg.controls_clients && crate::text::str_starts_with(
                u.as_str(),
                reg.scope.as_str(),
            ) {
                match best {
                    Some(j) => {
                        proof {
                            self.lemma_reg_at(j as int);
                        }
                        let prev_len = chars_of(self.registrations[j].1.scope.as_str()).len();
                        let cur_len = chars_of(reg.scope.as_str()).len();
                        assert(prev_len == self.regs_model()[self.scopes()[j as int]].scope.len());
                        assert(cur_len == self.regs_model()[sc].scope.len());
                        if prev_len <= cur_len {
                            best = Some(i);
                        }
                    },
                    None => {
                        best = Some(i);
                    },
                }
            }
            i = i + 1;
        }
        proof {
            assert(self.scopes().take(self.registrations@.len() as int) =~= self.scopes());
        }
        match best {
            Some(j) => {
                proof {
                    self.lemma_reg_at(j as int);
                }
                Some(copy_registration(&self.registrations[j].1))
            },
            None => None,
        }
    }

    fn registration_for_scope(&self, scope: &str) -> (r: Option<ServiceWorkerRegistration>)
        ensures
            match r {
                Some(reg) => self.regs_model().dom().contains(trim(scope@)) && reg@ == self.regs_model()[trim(scope@)]
                    && controls_by_rule(reg@),
                None => !self.regs_model().dom().contains(trim(scope@)),
            },
    {
        proof {
            use_type_invariant(self);
        }
        let key = normalize_url_string(scope);
        let kv = chars_of(key.as_str());
        match crate::keyed::table_get(&self.registrations, kv.as_slice()) {
            Some(reg) => Some(copy_registration(reg)),
            None => None,
        }
    }

    fn registrations(&self) -> (r: Vec<ServiceWorkerRegistration>)
        ensures
            r@.len() == self.scopes().len(),
            forall|i: int| 0 <= i < r@.len() ==> (#[trigger] r@[i])@ == self.regs_model()[self.scopes()[i]],
            forall|i: int| 0 <= i < r@.len() ==> controls_by_rule(#[trigger] r@[i]@),
    {
        proof {
            use_type_invariant(self);
        }
        let mut r: Vec<ServiceWorkerRegistration> = Vec::new();
        let mut i: usize = 0;
        while i < self.registrations.len()
            invariant
                self.wf(),
                i <= self.registrations@.len(),
                r@.len() == i,
                forall|k: int| 0 <= k < i ==> (#[trigger] r@[k])@ == self.regs_model()[self.scopes()[k]],
            decreases self.registrations.len() - i,
        {
            proof {
                self.lemma_reg_at(i as int);
            }
            r.push(copy_registration(&self.registrations[i].1));
            i = i + 1;
        }
        proof {
            if self.registrations@.len() > 0 {
                self.lemma_reg_at(0);
            } else {
                assert(self.scopes().len() == 0);
            }
        }
        r
    }

    fn intercept_fetch(&mut self, request: &CacheApiRequest) -> (r: Option<CacheApiResponse>)
        ensures
            final(self).scripts_model() == old(self).scripts_model(),
            final(self).regs_model() == old(self).regs_model(),
            final(self).scopes() == old(self).scopes(),
            final(self).next_id() == old(self).next_id(),
            final(self).cache_state().caches_model() == old(self).cache_state().caches_model(),
            match best_controller(old(self).scopes(), old(self).regs_model(), trim(request.url@)) {
                Some(sc) if old(self).regs_model()[sc].analysis.has_fetch_listener || old(
                    self,
                ).regs_model()[sc].analysis.cache_first_fetch => {
                    let c0 = old(self).cache_state();
                    let k = request_key(*request);
                    &&& match (r, first_cache_with(c0.names(), c0.caches_model(), k)) {
                        (Some(resp), Some(n)) => resp@ == c0.caches_model()[n][k].response,
                        (None, None) => true,
                        _ => false,
                    }
                    &&& final(self).cache_state().counters() == (CacheApiMetrics {
                        cache_storage_match_calls: sat_sum(c0.counters().cache_storage_match_calls, 1),
                        cache_hits: inc_if(c0.counters().cache_hits, r is Some),
                        cache_misses: inc_if(c0.counters().cache_misses, r is None),
                        ..c0.counters()
                    })
                    &&& final(self).own_counters() == (CacheApiMetrics {
                        fetch_intercepts: sat_sum(old(self).own_counters().fetch_intercepts, 1),
                        fetch_cache_hits: inc_if(old(self).own_counters().fetch_cache_hits, r is Some),
                        fetch_passthroughs: inc_if(old(self).own_counters().fetch_passthroughs, r is None),
                        ..old(self).own_counters()
                    })
                },
                _ => r is None && *final(self) == *old(self),
            },
    {
        let controller = match self.controller_for_url(request.url.as_str()) {
            Some(c) => c,
            None => {
                return None;
            },
        };
        if !controller.analysis.has_fetch_listener && !controller.analysis.cache_first_fetch {
            return None;
        }
        proof {
            use_type_invariant(&*self);
        }
        self.metrics.fetch_intercepts = self.metrics.fetch_intercepts.saturating_add(1);
        let mut cache = ResearchCacheStorage::new();
        std::mem::swap(&mut cache, &mut self.cache);
        let response = cache.match_any(request);
        self.cache = cache;
        if response.is_some() {
            self.metrics.fetch_cache_hits = self.metrics.fetch_cache_hits.saturating_add(1);
        } else {
            self.metrics.fetch_passthroughs = self.metrics.fetch_passthroughs.saturating_add(1);
        }
        response
    }

    fn metrics(&self) -> (m: CacheApiMetrics)
        ensures
            m == merged_metrics(self.cache_state().counters(), self.own_counters()),
    {
        merge_metrics(self.cache.metrics(), self.metrics)
    }
}

/// What matching `key` in the cache named `name` gives for the caches `m`.
pub open spec fn matched(m: Map<Seq<char>, Map<ReqKey, EntryView>>, name: Seq<char>, key: ReqKey) -> Option<ResponseView> {
    match sanitize_cache_name_spec(name) {
        Err(_) => None,
        Ok(n) => match lookup(m, n, key) {
            Some(e) => Some(e.response),
            None => None,
        },
    }
}

/// A successful put is then matched: matching the same request in the same
/// cache gives back the response stored.
pub proof fn lemma_put_then_match_response(
    s0: ResearchCacheStorage,
    s1: ResearchCacheStorage,
    name: Seq<char>,
    request: ReqKey,
    response: ResponseView,
    now: u128,
)
    requires
        put_effect(s0, s1, name, request, response, now, Ok(())),
    ensures
        matched(s1.caches_model(), name, request) == Some(response),
{
    lemma_put_then_match(s0, s1, name, request, response, now);
}

} // verus!
