//! Origin security, CORS-lite, CSP-lite, sandbox, and mixed-content policy.
//!
//! Stable origin parsing, same-origin decisions, CORS-lite checks, CSP-lite
//! source matching, sandbox gates, mixed-content handling, and a stateful
//! enforcer with metrics and a violation log.

use crate::keyed::{
    keys_sorted, lemma_table_empty, lex_lt, lemma_table_entry, table_find, table_insert, table_map,
};
use crate::text::{
    all_digits, append_str, chars_eq, chars_of, decimal, decimal_string, index_of,
    is_lit, last_index_of, last_index_of_exec, lower, lower_chars, owned, parse_u16, parse_u16_chars,
    slice_vec, split_once, split_once_exec, string_from, strip, trim, trim_chars,
};
use vstd::prelude::*;

verus! {

broadcast use vstd::string::group_string_axioms;

// ---------------------------------------------------------------------------
// Origins
// ---------------------------------------------------------------------------

/// Browser origin.
#[derive(Debug, Clone, PartialEq, Eq, PartialOrd, Ord, Hash)]
pub enum SecurityOrigin {
    /// Tuple origin for network schemes.
    Tuple {
        /// Scheme, lower-case.
        scheme: String,
        /// Host, lower-case.
        host: String,
        /// Explicit or default port.
        port: u16,
    },
    /// Opaque origin for unsupported or unique-origin contexts.
    Opaque(String),
}

/// Mathematical model of an origin.
pub enum OriginView {
    Tuple { scheme: Seq<char>, host: Seq<char>, port: u16 },
    Opaque(Seq<char>),
}

impl View for SecurityOrigin {
    type V = OriginView;

    open spec fn view(&self) -> OriginView {
        match self {
            SecurityOrigin::Tuple { scheme, host, port } => OriginView::Tuple {
                scheme: scheme@,
                host: host@,
                port: *port,
            },
            SecurityOrigin::Opaque(label) => OriginView::Opaque(label@),
        }
    }
}

/// Default port of a network scheme.
pub open spec fn default_port(scheme: Seq<char>) -> u16 {
    if scheme == "https"@ { 443 } else { 80 }
}

/// Characters that end a URL authority.
pub open spec fn is_authority_stop(c: char) -> bool {
    c == '/' || c == '?' || c == '#'
}

/// Host and port of a non-empty authority (userinfo already removed).
pub open spec fn host_port(a: Seq<char>, scheme: Seq<char>) -> Option<(Seq<char>, u16)> {
    if a.len() > 0 && a[0] == '[' {
        match index_of(a, ']') {
            None => None,
            Some(end) => {
                let after = a.skip(end + 1);
                let port = if after.len() > 0 && after[0] == ':' {
                    match parse_u16(after.skip(1)) {
                        Some(p) => p,
                        None => default_port(scheme),
                    }
                } else {
                    default_port(scheme)
                };
                Some((lower(a.take(end + 1)), port))
            },
        }
    } else {
        match last_index_of(a, ':') {
            Some(i) => if all_digits(a.skip(i + 1)) {
                Some(
                    (
                        lower(a.take(i)),
                        match parse_u16(a.skip(i + 1)) {
                            Some(p) => p,
                            None => default_port(scheme),
                        },
                    ),
                )
            } else {
                Some((lower(a), default_port(scheme)))
            },
            None => Some((lower(a), default_port(scheme))),
        }
    }
}

/// Index of the first authority-ending character at or after `i`, or the length.
pub open spec fn authority_end(s: Seq<char>, i: int) -> int
    decreases s.len() - i,
{
    if i < 0 || i >= s.len() {
        s.len() as int
    } else if is_authority_stop(s[i]) {
        i
    } else {
        authority_end(s, i + 1)
    }
}

/// The authority of the text after `scheme://`, without userinfo.
pub open spec fn authority_of(rest: Seq<char>) -> Seq<char> {
    let a0 = rest.take(authority_end(rest, 0));
    match last_index_of(a0, '@') {
        Some(i) => a0.skip(i + 1),
        None => a0,
    }
}

/// Tuple origin of an absolute `http`/`https` URL, when it has one.
pub open spec fn parse_origin_spec(url: Seq<char>) -> Option<OriginView> {
    match split_once(trim(url), "://"@) {
        None => None,
        Some((sch, rest)) => {
            let scheme = lower(sch);
            if !(scheme == "http"@ || scheme == "https"@) {
                None
            } else {
                let a = authority_of(rest);
                if a.len() == 0 {
                    None
                } else {
                    match host_port(a, scheme) {
                        None => None,
                        Some((host, port)) => if host.len() == 0 {
                            None
                        } else {
                            Some(OriginView::Tuple { scheme, host, port })
                        },
                    }
                }
            }
        },
    }
}

/// 64-bit FNV-1a offset basis and prime.
pub open spec fn fnv_offset() -> u64 {
    0xcbf2_9ce4_8422_2325
}

/// 64-bit FNV-1a prime.
pub open spec fn fnv_prime() -> u64 {
    0x0000_0100_0000_01b3
}

/// 64-bit FNV-1a hash of a byte sequence.
pub open spec fn fnv1a(bytes: Seq<u8>) -> u64
    decreases bytes.len(),
{
    if bytes.len() == 0 {
        fnv_offset()
    } else {
        (((fnv1a(bytes.drop_last()) ^ (bytes.last() as u64)) as int * fnv_prime() as int) % 0x1_0000_0000_0000_0000int) as u64
    }
}

/// Lower-case hexadecimal digit.
pub open spec fn hex_digit(d: nat) -> char {
    if d < 10 {
        (('0' as u32) + d) as char
    } else {
        (('a' as u32) + (d - 10)) as char
    }
}

/// The low `k` hexadecimal digits of `n`, zero-padded, most significant first.
pub open spec fn hex_padded(n: nat, k: nat) -> Seq<char>
    decreases k,
{
    if k == 0 {
        Seq::empty()
    } else {
        hex_padded(n / 16, (k - 1) as nat).push(hex_digit(n % 16))
    }
}

/// Label of an opaque origin derived from the URL text.
pub open spec fn opaque_label(url: Seq<char>) -> Seq<char> {
    hex_padded(fnv1a(vstd::utf8::encode_utf8(url)) as nat, 16)
}

/// `SecurityOrigin::parse` as a function of the URL.
pub open spec fn origin_from_url(url: Seq<char>) -> OriginView {
    match parse_origin_spec(url) {
        Some(o) => o,
        None => OriginView::Opaque(opaque_label(url)),
    }
}

/// Serialized form of an origin.
pub open spec fn serialize_origin(o: OriginView) -> Seq<char> {
    match o {
        OriginView::Tuple { scheme, host, port } => scheme + "://"@ + host + ":"@ + decimal(port as nat),
        OriginView::Opaque(label) => "opaque:"@ + label,
    }
}

/// The origin is a tuple origin with an `http` or `https` scheme.
pub open spec fn is_network_tuple_spec(o: OriginView) -> bool {
    match o {
        OriginView::Tuple { scheme, .. } => scheme == "http"@ || scheme == "https"@,
        OriginView::Opaque(_) => false,
    }
}

/// HTTPS, `localhost` and `*.localhost` tuple origins are potentially trustworthy.
pub open spec fn is_trustworthy_spec(o: OriginView) -> bool {
    match o {
        OriginView::Tuple { scheme, host, .. } => scheme == "https"@ || host == "localhost"@
            || crate::text::ends_with(host, ".localhost"@),
        OriginView::Opaque(_) => false,
    }
}

impl SecurityOrigin {
    /// Parses an origin from an absolute URL; anything that is not an
    /// `http`/`https` URL with a host gets a stable opaque origin.
    pub fn parse(url: &str) -> (o: Self)
        ensures
            o@ == origin_from_url(url@),
    {
        match parse_origin(url) {
            Some(o) => o,
            None => SecurityOrigin::Opaque(stable_opaque_label(url)),
        }
    }

    /// Returns true for tuple HTTP(S) origins.
    pub fn is_network_tuple(&self) -> (r: bool)
        ensures
            r == is_network_tuple_spec(self@),
    {
        match self {
            SecurityOrigin::Tuple { scheme, .. } => {
                let s = chars_of(scheme.as_str());
                is_lit(s.as_slice(), "http") || is_lit(s.as_slice(), "https")
            },
            SecurityOrigin::Opaque(_) => false,
        }
    }

    /// Returns whether this origin is potentially trustworthy.
    pub fn is_potentially_trustworthy(&self) -> (r: bool)
        ensures
            r == is_trustworthy_spec(self@),
    {
        match self {
            SecurityOrigin::Tuple { scheme, host, .. } => {
                let s = chars_of(scheme.as_str());
                let h = chars_of(host.as_str());
                let suffix = chars_of(".localhost");
                is_lit(s.as_slice(), "https") || is_lit(h.as_slice(), "localhost")
                    || crate::text::ends_with_exec(h.as_slice(), suffix.as_slice())
            },
            SecurityOrigin::Opaque(_) => false,
        }
    }

    /// Returns true if origins are same-origin (equal models).
    pub fn same_origin(&self, other: &Self) -> (r: bool)
        ensures
            r == (self@ == other@),
    {
        match (self, other) {
            (
                SecurityOrigin::Tuple { scheme: s1, host: h1, port: p1 },
                SecurityOrigin::Tuple { scheme: s2, host: h2, port: p2 },
            ) => *p1 == *p2 && crate::text::str_eq(s1.as_str(), s2.as_str())
                && crate::text::str_eq(h1.as_str(), h2.as_str()),
            (SecurityOrigin::Opaque(a), SecurityOrigin::Opaque(b)) => crate::text::str_eq(
                a.as_str(),
                b.as_str(),
            ),
            _ => false,
        }
    }

    /// Serializes the origin to a stable label: `scheme://host:port` or `opaque:label`.
    pub fn serialize(&self) -> (s: String)
        ensures
            s@ == serialize_origin(self@),
    {
        match self {
            SecurityOrigin::Tuple { scheme, host, port } => {
                let mut s = scheme.clone();
                append_str(&mut s, "://");
                append_str(&mut s, host.as_str());
                append_str(&mut s, ":");
                let p = decimal_string(*port as u64);
                append_str(&mut s, p.as_str());
                s
            },
            SecurityOrigin::Opaque(label) => {
                let mut s = owned("opaque:");
                append_str(&mut s, label.as_str());
                s
            },
        }
    }
}

/// Same-origin is an equivalence: reflexive, symmetric and transitive.
pub proof fn lemma_same_origin_equivalence(a: OriginView, b: OriginView, c: OriginView)
    ensures
        a == a,
        a == b ==> b == a,
        a == b && b == c ==> a == c,
{
}

fn default_port_exec(scheme: &[char]) -> (p: u16)
    ensures
        p == default_port(scheme@),
{
    if is_lit(scheme, "https") { 443 } else { 80 }
}

fn parse_origin(url: &str) -> (r: Option<SecurityOrigin>)
    ensures
        match r {
            Some(o) => parse_origin_spec(url@) == Some(o@),
            None => parse_origin_spec(url@) is None,
        },
{
    let uv = chars_of(url);
    let t = trim_chars(uv.as_slice());
    let sep = chars_of("://");
    let (sch, rest) = match split_once_exec(t.as_slice(), sep.as_slice()) {
        Some(pair) => pair,
        None => return None,
    };
    let scheme = lower_chars(sch.as_slice());
    if !(is_lit(scheme.as_slice(), "http") || is_lit(scheme.as_slice(), "https")) {
        return None;
    }
    let a = authority_exec(rest.as_slice());
    if a.len() == 0 {
        return None;
    }
    match host_port_exec(a.as_slice(), scheme.as_slice()) {
        None => None,
        Some((host, port)) => {
            if host.len() == 0 {
                return None;
            }
            Some(
                SecurityOrigin::Tuple {
                    scheme: string_from(scheme.as_slice()),
                    host: string_from(host.as_slice()),
                    port,
                },
            )
        },
    }
}

fn authority_exec(rest: &[char]) -> (a: Vec<char>)
    ensures
        a@ == authority_of(rest@),
{
    let mut i: usize = 0;
    while i < rest.len() && !(rest[i] == '/' || rest[i] == '?' || rest[i] == '#')
        invariant
            i <= rest@.len(),
            authority_end(rest@, 0) == authority_end(rest@, i as int),
        decreases rest.len() - i,
    {
        i = i + 1;
    }
    let a0 = slice_vec(rest, 0, i);
    assert(a0@ =~= rest@.take(authority_end(rest@, 0)));
    match last_index_of_exec(a0.as_slice(), '@') {
        Some(at) => {
            proof {
                crate::text::lemma_last_index_of(a0@, '@');
            }
            let r = slice_vec(a0.as_slice(), at + 1, a0.len());
            assert(r@ =~= a0@.skip(at + 1));
            r
        },
        None => a0,
    }
}

fn host_port_exec(a: &[char], scheme: &[char]) -> (r: Option<(Vec<char>, u16)>)
    ensures
        match r {
            Some((h, p)) => host_port(a@, scheme@) == Some((h@, p)),
            None => host_port(a@, scheme@) is None,
        },
{
    if a.len() > 0 && a[0] == '[' {
        let close: Vec<char> = vec![']'];
        assert(close@ =~= seq![']']);
        match crate::text::find_exec(a, close.as_slice()) {
            None => None,
            Some(end) => {
                proof {
                    crate::text::lemma_find_from_occurs(a@, seq![']'], 0);
                }
                let after = slice_vec(a, end + 1, a.len());
                assert(after@ =~= a@.skip(end + 1));
                let port = if after.len() > 0 && after[0] == ':' {
                    let digits = slice_vec(after.as_slice(), 1, after.len());
                    assert(digits@ =~= after@.skip(1));
                    match parse_u16_chars(digits.as_slice()) {
                        Some(p) => p,
                        None => default_port_exec(scheme),
                    }
                } else {
                    default_port_exec(scheme)
                };
                let hv = slice_vec(a, 0, end + 1);
                assert(hv@ =~= a@.take(end + 1));
                Some((lower_chars(hv.as_slice()), port))
            },
        }
    } else {
        match last_index_of_exec(a, ':') {
            Some(i) => {
                proof {
                    crate::text::lemma_last_index_of(a@, ':');
                }
                let port_text = slice_vec(a, i + 1, a.len());
                assert(port_text@ =~= a@.skip(i + 1));
                let mut k: usize = 0;
                let mut all = true;
                while k < port_text.len()
                    invariant
                        k <= port_text@.len(),
                        all == (forall|m: int| 0 <= m < k ==> crate::text::is_digit(
                            #[trigger] port_text@[m],
                        )),
                    decreases port_text.len() - k,
                {
                    let c = port_text[k];
                    if !('0' <= c && c <= '9') {
                        all = false;
                    }
                    k = k + 1;
                }
                if all {
                    let host = slice_vec(a, 0, i);
                    assert(host@ =~= a@.take(i as int));
                    let port = match parse_u16_chars(port_text.as_slice()) {
                        Some(p) => p,
                        None => default_port_exec(scheme),
                    };
                    Some((lower_chars(host.as_slice()), port))
                } else {
                    Some((lower_chars(a), default_port_exec(scheme)))
                }
            },
            None => Some((lower_chars(a), default_port_exec(scheme))),
        }
    }
}

fn hex_digit_exec(d: u64) -> (c: char)
    requires
        d < 16,
    ensures
        c == hex_digit(d as nat),
{
    let code: u8 = if d < 10 { 48 + d as u8 } else { 87 + d as u8 };
    let c = code as char;
    assert(c == hex_digit(d as nat));
    c
}

fn hex16(n: u64) -> (s: String)
    ensures
        s@ == hex_padded(n as nat, 16),
{
    let mut digits: Vec<char> = Vec::new();
    let mut k: u64 = 0;
    let mut m: u64 = n;
    assert(pow16(0) == 1);
    assert((n as nat) / 1 == n as nat);
    while k < 16
        invariant
            k <= 16,
            digits@.len() == k,
            m as nat == (n as nat) / pow16(k as nat),
            forall|i: int| 0 <= i < k ==> #[trigger] digits@[i] == hex_digit(((n as nat) / pow16(i as nat)) % 16),
        decreases 16 - k,
    {
        proof {
            lemma_pow16_step(n as nat, k as nat);
        }
        let c = hex_digit_exec(m % 16);
        digits.push(c);
        m = m / 16;
        k = k + 1;
    }
    let mut out: Vec<char> = Vec::new();
    let mut j: usize = 16;
    while j > 0
        invariant
            j <= 16,
            digits@.len() == 16,
            forall|i: int| 0 <= i < 16 ==> #[trigger] digits@[i] == hex_digit(((n as nat) / pow16(i as nat)) % 16),
            out@ == hex_padded((n as nat) / pow16(j as nat), (16 - j) as nat),
        decreases j,
    {
        proof {
            lemma_pow16_step(n as nat, (j - 1) as nat);
        }
        out.push(digits[j - 1]);
        j = j - 1;
    }
    proof {
        assert(pow16(0) == 1);
    }
    string_from(out.as_slice())
}

/// Powers of sixteen.
pub open spec fn pow16(k: nat) -> nat
    decreases k,
{
    if k == 0 { 1 } else { 16 * pow16((k - 1) as nat) }
}

proof fn lemma_pow16_step(n: nat, k: nat)
    ensures
        pow16(k) > 0,
        (n / pow16(k)) / 16 == n / pow16(k + 1),
    decreases k,
{
    if k > 0 {
        lemma_pow16_step(n, (k - 1) as nat);
    }
    assert(pow16(k + 1) == 16 * pow16(k));
    vstd::arithmetic::div_mod::lemma_div_denominator(n as int, pow16(k) as int, 16);
    assert(pow16(k) * 16 == 16 * pow16(k)) by (nonlinear_arith);
}

fn stable_opaque_label(input: &str) -> (s: String)
    ensures
        s@ == opaque_label(input@),
{
    let bytes = input.as_bytes();
    let mut hash: u64 = 0xcbf2_9ce4_8422_2325;
    let mut i: usize = 0;
    while i < bytes.len()
        invariant
            i <= bytes@.len(),
            bytes@ == vstd::utf8::encode_utf8(input@),
            hash == fnv1a(bytes@.take(i as int)),
        decreases bytes.len() - i,
    {
        assert(bytes@.take(i + 1).drop_last() =~= bytes@.take(i as int));
        let x: u64 = hash ^ (bytes[i] as u64);
        let wide: u128 = (x as u128) * 0x0000_0100_0000_01b3u128;
        let reduced: u128 = wide % 0x1_0000_0000_0000_0000u128;
        hash = reduced as u64;
        i = i + 1;
    }
    assert(bytes@.take(bytes.len() as int) =~= bytes@);
    hex16(hash)
}

// ---------------------------------------------------------------------------
// Request modes and destinations
// ---------------------------------------------------------------------------

/// Request mode, matching Fetch concepts in a compact form.
#[derive(Debug, Clone, Copy, PartialEq, Eq, Structural)]
pub enum RequestMode {
    /// same-origin only.
    SameOrigin,
    /// CORS request.
    Cors,
    /// no-cors request, resulting in an opaque response for cross-origin.
    NoCors,
    /// navigation request.
    Navigate,
}

impl Default for RequestMode {
    fn default() -> (m: Self)
        ensures
            m == RequestMode::Cors,
    {
        RequestMode::Cors
    }
}

/// Credentials mode.
#[derive(Debug, Clone, Copy, PartialEq, Eq, Structural)]
pub enum CredentialsMode {
    /// Omit credentials.
    Omit,
    /// Same-origin credentials.
    SameOrigin,
    /// Include credentials.
    Include,
}

impl Default for CredentialsMode {
    fn default() -> (m: Self)
        ensures
            m == CredentialsMode::SameOrigin,
    {
        CredentialsMode::SameOrigin
    }
}

/// Fetch destination.
#[derive(Debug, Clone, Copy, PartialEq, Eq, PartialOrd, Ord, Hash, Structural)]
pub enum RequestDestination {
    Document,
    Script,
    Style,
    Image,
    Font,
    Worker,
    ServiceWorker,
    Media,
    Manifest,
    Fetch,
    Xhr,
    Other,
}

/// CSP directive fallback chain of a destination.
pub open spec fn csp_chain(d: RequestDestination) -> Seq<Seq<char>> {
    match d {
        RequestDestination::Script | RequestDestination::Worker | RequestDestination::ServiceWorker => seq![
            "script-src"@,
            "default-src"@,
        ],
        RequestDestination::Style => seq!["style-src"@, "default-src"@],
        RequestDestination::Image => seq!["img-src"@, "default-src"@],
        RequestDestination::Font => seq!["font-src"@, "default-src"@],
        RequestDestination::Media => seq!["media-src"@, "default-src"@],
        RequestDestination::Manifest => seq!["manifest-src"@, "default-src"@],
        RequestDestination::Fetch | RequestDestination::Xhr => seq!["connect-src"@, "default-src"@],
        RequestDestination::Document | RequestDestination::Other => seq!["default-src"@],
    }
}

/// Stable label of a destination.
pub open spec fn request_destination_label(d: RequestDestination) -> Seq<char> {
    match d {
        RequestDestination::Document => "document"@,
        RequestDestination::Script => "script"@,
        RequestDestination::Style => "style"@,
        RequestDestination::Image => "image"@,
        RequestDestination::Font => "font"@,
        RequestDestination::Worker => "worker"@,
        RequestDestination::ServiceWorker => "service-worker"@,
        RequestDestination::Media => "media"@,
        RequestDestination::Manifest => "manifest"@,
        RequestDestination::Fetch => "fetch"@,
        RequestDestination::Xhr => "xhr"@,
        RequestDestination::Other => "other"@,
    }
}

impl RequestDestination {
    /// CSP directive fallback chain for this destination.
    pub fn csp_directives(self) -> (r: Vec<&'static str>)
        ensures
            r@.len() == csp_chain(self).len(),
            forall|i: int| 0 <= i < r@.len() ==> (#[trigger] r@[i])@ == csp_chain(self)[i],
    {
        match self {
            Self::Script | Self::Worker | Self::ServiceWorker => vec!["script-src", "default-src"],
            Self::Style => vec!["style-src", "default-src"],
            Self::Image => vec!["img-src", "default-src"],
            Self::Font => vec!["font-src", "default-src"],
            Self::Media => vec!["media-src", "default-src"],
            Self::Manifest => vec!["manifest-src", "default-src"],
            Self::Fetch | Self::Xhr => vec!["connect-src", "default-src"],
            Self::Document | Self::Other => vec!["default-src"],
        }
    }

    /// Stable label.
    pub fn as_str(self) -> (r: &'static str)
        ensures
            r@ == request_destination_label(self),
    {
        match self {
            Self::Document => "document",
            Self::Script => "script",
            Self::Style => "style",
            Self::Image => "image",
            Self::Font => "font",
            Self::Worker => "worker",
            Self::ServiceWorker => "service-worker",
            Self::Media => "media",
            Self::Manifest => "manifest",
            Self::Fetch => "fetch",
            Self::Xhr => "xhr",
            Self::Other => "other",
        }
    }
}

/// Referrer policy subset.
#[derive(Debug, Clone, Copy, PartialEq, Eq, Structural)]
pub enum ReferrerPolicyLite {
    NoReferrer,
    Origin,
    SameOrigin,
    StrictOriginWhenCrossOrigin,
    UnsafeUrl,
}

impl Default for ReferrerPolicyLite {
    fn default() -> (p: Self)
        ensures
            p == ReferrerPolicyLite::StrictOriginWhenCrossOrigin,
    {
        ReferrerPolicyLite::StrictOriginWhenCrossOrigin
    }
}

/// Mixed content behavior.
#[derive(Debug, Clone, Copy, PartialEq, Eq, Structural)]
pub enum MixedContentPolicy {
    /// Block active and optionally-blockable content.
    BlockAll,
    /// Allow passive mixed image/media loads only.
    AllowPassive,
    /// Allow all mixed content. Useful for local synthetic tests only.
    AllowAll,
}

impl Default for MixedContentPolicy {
    fn default() -> (p: Self)
        ensures
            p == MixedContentPolicy::AllowPassive,
    {
        MixedContentPolicy::AllowPassive
    }
}

// ---------------------------------------------------------------------------
// Sandbox
// ---------------------------------------------------------------------------

/// Sandbox flags. `true` means the capability is allowed.
#[derive(Debug, Clone, Copy, PartialEq, Eq, Structural)]
pub struct SandboxPolicy {
    pub allow_scripts: bool,
    pub allow_same_origin: bool,
    pub allow_forms: bool,
    pub allow_popups: bool,
    pub allow_top_navigation: bool,
    pub allow_downloads: bool,
    pub allow_modals: bool,
    pub allow_pointer_lock: bool,
}

/// Every capability allowed.
pub open spec fn unsandboxed_policy() -> SandboxPolicy {
    SandboxPolicy {
        allow_scripts: true,
        allow_same_origin: true,
        allow_forms: true,
        allow_popups: true,
        allow_top_navigation: true,
        allow_downloads: true,
        allow_modals: true,
        allow_pointer_lock: true,
    }
}

/// No capability allowed.
pub open spec fn locked_down_policy() -> SandboxPolicy {
    SandboxPolicy {
        allow_scripts: false,
        allow_same_origin: false,
        allow_forms: false,
        allow_popups: false,
        allow_top_navigation: false,
        allow_downloads: false,
        allow_modals: false,
        allow_pointer_lock: false,
    }
}

/// Some trimmed token equals `name`.
pub open spec fn has_token(toks: Seq<Seq<char>>, name: Seq<char>) -> bool {
    exists|i: int| 0 <= i < toks.len() && trim(#[trigger] toks[i]) == name
}

/// Sandbox policy granted by a token list.
pub open spec fn sandbox_from(tokens: Seq<char>) -> SandboxPolicy {
    let t = crate::text::ascii_tokens(tokens);
    SandboxPolicy {
        allow_scripts: has_token(t, "allow-scripts"@),
        allow_same_origin: has_token(t, "allow-same-origin"@),
        allow_forms: has_token(t, "allow-forms"@),
        allow_popups: has_token(t, "allow-popups"@),
        allow_top_navigation: has_token(t, "allow-top-navigation"@) || has_token(
            t,
            "allow-top-navigation-by-user-activation"@,
        ),
        allow_downloads: has_token(t, "allow-downloads"@),
        allow_modals: has_token(t, "allow-modals"@),
        allow_pointer_lock: has_token(t, "allow-pointer-lock"@),
    }
}

impl Default for SandboxPolicy {
    fn default() -> (p: Self)
        ensures
            p == unsandboxed_policy(),
    {
        Self::unsandboxed()
    }
}

impl SandboxPolicy {
    /// No sandbox restrictions.
    pub fn unsandboxed() -> (p: Self)
        ensures
            p == unsandboxed_policy(),
    {
        Self {
            allow_scripts: true,
            allow_same_origin: true,
            allow_forms: true,
            allow_popups: true,
            allow_top_navigation: true,
            allow_downloads: true,
            allow_modals: true,
            allow_pointer_lock: true,
        }
    }

    /// Fully sandboxed default for `<iframe sandbox>` without tokens.
    pub fn locked_down() -> (p: Self)
        ensures
            p == locked_down_policy(),
    {
        Self {
            allow_scripts: false,
            allow_same_origin: false,
            allow_forms: false,
            allow_popups: false,
            allow_top_navigation: false,
            allow_downloads: false,
            allow_modals: false,
            allow_pointer_lock: false,
        }
    }

    /// Parses sandbox tokens: each recognized `allow-*` token grants its capability.
    pub fn from_tokens(tokens: &str) -> (p: Self)
        ensures
            p == sandbox_from(tokens@),
    {
        let v = chars_of(tokens);
        let toks = crate::text::ascii_tokens_exec(v.as_slice());
        let ghost t = crate::text::ascii_tokens(v@);
        let mut policy = Self::locked_down();
        let mut i: usize = 0;
        while i < toks.len()
            invariant
                i <= toks@.len(),
                toks@.len() == t.len(),
                t == crate::text::ascii_tokens(tokens@),
                forall|k: int| 0 <= k < toks@.len() ==> #[trigger] toks@[k]@ == t[k],
                policy.allow_scripts == has_token(t.take(i as int), "allow-scripts"@),
                policy.allow_same_origin == has_token(t.take(i as int), "allow-same-origin"@),
                policy.allow_forms == has_token(t.take(i as int), "allow-forms"@),
                policy.allow_popups == has_token(t.take(i as int), "allow-popups"@),
                policy.allow_top_navigation == (has_token(t.take(i as int), "allow-top-navigation"@)
                    || has_token(t.take(i as int), "allow-top-navigation-by-user-activation"@)),
                policy.allow_downloads == has_token(t.take(i as int), "allow-downloads"@),
                policy.allow_modals == has_token(t.take(i as int), "allow-modals"@),
                policy.allow_pointer_lock == has_token(t.take(i as int), "allow-pointer-lock"@),
            decreases toks.len() - i,
        {
            let tok = trim_chars(toks[i].as_slice());
            let tk = tok.as_slice();
            proof {
                lemma_has_token_step(t, i as int);
            }
            if is_lit(tk, "allow-scripts") {
                policy.allow_scripts = true;
            }
            if is_lit(tk, "allow-same-origin") {
                policy.allow_same_origin = true;
            }
            if is_lit(tk, "allow-forms") {
                policy.allow_forms = true;
            }
            if is_lit(tk, "allow-popups") {
                policy.allow_popups = true;
            }
            if is_lit(tk, "allow-top-navigation") || is_lit(tk, "allow-top-navigation-by-user-activation") {
                policy.allow_top_navigation = true;
            }
            if is_lit(tk, "allow-downloads") {
                policy.allow_downloads = true;
            }
            if is_lit(tk, "allow-modals") {
                policy.allow_modals = true;
            }
            if is_lit(tk, "allow-pointer-lock") {
                policy.allow_pointer_lock = true;
            }
            i = i + 1;
        }
        assert(t.take(toks.len() as int) =~= t);
        policy
    }

    /// Returns true if this policy imposes any restriction.
    pub fn is_sandboxed(self) -> (r: bool)
        ensures
            r == (self != unsandboxed_policy()),
    {
        !(self.allow_scripts && self.allow_same_origin && self.allow_forms && self.allow_popups
            && self.allow_top_navigation && self.allow_downloads && self.allow_modals
            && self.allow_pointer_lock)
    }
}

proof fn lemma_has_token_step(t: Seq<Seq<char>>, i: int)
    requires
        0 <= i < t.len(),
    ensures
        forall|name: Seq<char>| #[trigger] has_token(t.take(i + 1), name) == (has_token(t.take(i), name)
            || trim(t[i]) == name),
{
    assert forall|name: Seq<char>| #[trigger] has_token(t.take(i + 1), name) == (has_token(t.take(i), name)
        || trim(t[i]) == name) by {
        if has_token(t.take(i + 1), name) {
            let k = choose|k: int| 0 <= k < i + 1 && trim(#[trigger] t.take(i + 1)[k]) == name;
            if k < i {
                assert(t.take(i)[k] == t[k]);
            }
        }
        if has_token(t.take(i), name) {
            let k = choose|k: int| 0 <= k < i && trim(#[trigger] t.take(i)[k]) == name;
            assert(t.take(i + 1)[k] == t[k]);
        }
        if trim(t[i]) == name {
            assert(t.take(i + 1)[i] == t[i]);
        }
    }
}

/// An empty token list grants nothing.
pub proof fn lemma_empty_tokens_lock_down()
    ensures
        sandbox_from(Seq::empty()) == locked_down_policy(),
{
    assert(crate::text::skip_ascii_ws(Seq::<char>::empty()) =~= Seq::<char>::empty());
    assert(crate::text::ascii_tokens(Seq::<char>::empty()) =~= Seq::<Seq<char>>::empty());
}

// ---------------------------------------------------------------------------
// Content Security Policy
// ---------------------------------------------------------------------------

/// One CSP directive.
#[derive(Debug, Clone, PartialEq, Eq)]
pub struct CspDirective {
    pub name: String,
    pub sources: Vec<String>,
}

/// Trimmed, non-empty source expressions of a directive.
pub open spec fn directive_values(toks: Seq<Seq<char>>) -> Seq<Seq<char>>
    decreases toks.len(),
{
    if toks.len() == 0 {
        Seq::empty()
    } else {
        let rest = directive_values(toks.drop_last());
        let v = trim(toks.last());
        if v.len() > 0 {
            rest.push(v)
        } else {
            rest
        }
    }
}

/// Effect of one `;`-separated piece of a policy.
pub open spec fn csp_apply(m: Map<Seq<char>, Seq<Seq<char>>>, raw: Seq<char>) -> Map<Seq<char>, Seq<Seq<char>>> {
    let toks = crate::text::ascii_tokens(raw);
    if toks.len() == 0 {
        m
    } else {
        let key = lower(trim(toks[0]));
        if key.len() == 0 {
            m
        } else {
            m.insert(key, directive_values(toks.skip(1)))
        }
    }
}

/// Pieces applied left to right; a later directive with the same name replaces an earlier one.
pub open spec fn csp_fold(parts: Seq<Seq<char>>) -> Map<Seq<char>, Seq<Seq<char>>>
    decreases parts.len(),
{
    if parts.len() == 0 {
        Map::empty()
    } else {
        csp_apply(csp_fold(parts.drop_last()), parts.last())
    }
}

/// Directive map of a policy text.
pub open spec fn csp_parse_map(input: Seq<char>) -> Map<Seq<char>, Seq<Seq<char>>> {
    csp_fold(crate::text::split(input, ';'))
}

/// CSP decision.
#[derive(Debug, Clone, PartialEq, Eq)]
pub enum CspCheckResult {
    Allowed,
    ReportOnlyViolation(String),
    Blocked(String),
}

/// Model of a CSP decision.
pub enum CspVerdict {
    Allowed,
    ReportOnly(Seq<char>),
    Blocked(Seq<char>),
}

impl View for CspCheckResult {
    type V = CspVerdict;

    open spec fn view(&self) -> CspVerdict {
        match self {
            CspCheckResult::Allowed => CspVerdict::Allowed,
            CspCheckResult::ReportOnlyViolation(d) => CspVerdict::ReportOnly(d@),
            CspCheckResult::Blocked(d) => CspVerdict::Blocked(d@),
        }
    }
}

/// Nonce named by a source expression (`'nonce-…'` or `nonce-…`).
pub open spec fn source_nonce(value: Seq<char>, unquoted: Seq<char>) -> Option<Seq<char>> {
    if crate::text::starts_with(value, "'nonce-"@) && crate::text::ends_with(value.skip(7), "'"@) {
        Some(value.skip(7).drop_last())
    } else if crate::text::starts_with(unquoted, "nonce-"@) {
        Some(unquoted.skip(6))
    } else {
        None
    }
}

/// The host of the target matches a host source (`*.example` or an exact host).
pub open spec fn host_matches(source: Seq<char>, target_url: Seq<char>) -> bool {
    match origin_from_url(target_url) {
        OriginView::Tuple { host, .. } => if crate::text::starts_with(source, "*."@) {
            let rest = source.skip(2);
            host == rest || crate::text::ends_with(host, "."@ + rest)
        } else {
            host == lower(source)
        },
        OriginView::Opaque(_) => false,
    }
}

/// What one source expression decides: allow, refuse (`'none'`), or nothing.
pub open spec fn source_verdict(
    src: Seq<char>,
    doc: OriginView,
    target_origin: OriginView,
    target_url: Seq<char>,
    scheme: Seq<char>,
    nonce: Option<Seq<char>>,
) -> Option<bool> {
    let value = strip(trim(src), '"');
    let unquoted = strip(value, '\'');
    if value == "*"@ {
        Some(true)
    } else if value == "'none'"@ || unquoted == "none"@ {
        Some(false)
    } else if (value == "'self'"@ || unquoted == "self"@) && doc == target_origin {
        Some(true)
    } else if source_nonce(value, unquoted) is Some && nonce == source_nonce(value, unquoted) {
        Some(true)
    } else if crate::text::ends_with(value, ":"@) && crate::text::eq_ignore_case(
        crate::text::strip_end(value, ':'),
        scheme,
    ) {
        Some(true)
    } else if crate::text::contains(value, "://"@) {
        if serialize_origin(origin_from_url(value)) == serialize_origin(target_origin) {
            Some(true)
        } else {
            None
        }
    } else if host_matches(value, target_url) {
        Some(true)
    } else {
        None
    }
}

/// The first source expression that decides, in list order.
pub open spec fn sources_allow(
    srcs: Seq<Seq<char>>,
    doc: OriginView,
    target_origin: OriginView,
    target_url: Seq<char>,
    scheme: Seq<char>,
    nonce: Option<Seq<char>>,
) -> bool
    decreases srcs.len(),
{
    if srcs.len() == 0 {
        false
    } else {
        match source_verdict(srcs[0], doc, target_origin, target_url, scheme, nonce) {
            Some(b) => b,
            None => sources_allow(srcs.drop_first(), doc, target_origin, target_url, scheme, nonce),
        }
    }
}

/// Lower-cased scheme part of a URL (text before the first `:`).
pub open spec fn url_scheme(url: Seq<char>) -> Seq<char> {
    lower(crate::text::split(url, ':')[0])
}

/// A source list allows a target.
pub open spec fn source_list_allows_spec(
    srcs: Seq<Seq<char>>,
    doc: OriginView,
    target_url: Seq<char>,
    nonce: Option<Seq<char>>,
) -> bool {
    srcs.len() > 0 && sources_allow(
        srcs,
        doc,
        origin_from_url(target_url),
        target_url,
        url_scheme(target_url),
        nonce,
    )
}

/// The first directive of the chain that the policy defines decides.
pub open spec fn chain_check(
    m: Map<Seq<char>, Seq<Seq<char>>>,
    report_only: bool,
    chain: Seq<Seq<char>>,
    doc: OriginView,
    target_url: Seq<char>,
    nonce: Option<Seq<char>>,
) -> CspVerdict
    decreases chain.len(),
{
    if chain.len() == 0 {
        CspVerdict::Allowed
    } else if m.dom().contains(chain[0]) {
        if source_list_allows_spec(m[chain[0]], doc, target_url, nonce) {
            CspVerdict::Allowed
        } else if report_only {
            CspVerdict::ReportOnly(chain[0])
        } else {
            CspVerdict::Blocked(chain[0])
        }
    } else {
        chain_check(m, report_only, chain.drop_first(), doc, target_url, nonce)
    }
}

/// CSP decision for a request.
pub open spec fn csp_check(
    m: Map<Seq<char>, Seq<Seq<char>>>,
    report_only: bool,
    doc: OriginView,
    dest: RequestDestination,
    target_url: Seq<char>,
    nonce: Option<Seq<char>>,
) -> CspVerdict {
    if m.dom().len() == 0 {
        CspVerdict::Allowed
    } else {
        chain_check(m, report_only, csp_chain(dest), doc, target_url, nonce)
    }
}

/// Views of a list of strings.
pub open spec fn string_views(v: Seq<String>) -> Seq<Seq<char>> {
    v.map_values(|s: String| s@)
}

/// CSP-lite policy.
#[derive(Debug, PartialEq, Eq)]
pub struct CspPolicyLite {
    directives: Vec<(String, Vec<String>)>,
    report_only: bool,
}

impl CspPolicyLite {
    #[verifier::type_invariant]
    closed spec fn sorted_inv(self) -> bool {
        keys_sorted(self.directives@)
    }

    /// Directive name to source list.
    pub closed spec fn directive_map(self) -> Map<Seq<char>, Seq<Seq<char>>> {
        table_map(self.directives@).map_values(|v: Vec<String>| string_views(v@))
    }

    /// Whether violations are only reported.
    pub closed spec fn is_report_only(self) -> bool {
        self.report_only
    }

    /// Directives in increasing name order.
    pub closed spec fn directive_entries(self) -> Seq<(Seq<char>, Seq<Seq<char>>)> {
        self.directives@.map_values(|p: (String, Vec<String>)| (p.0@, string_views(p.1@)))
    }

    /// Empty policy.
    pub fn new() -> (p: Self)
        ensures
            p.directive_map() == Map::<Seq<char>, Seq<Seq<char>>>::empty(),
            !p.is_report_only(),
    {
        let directives: Vec<(String, Vec<String>)> = Vec::new();
        proof {
            lemma_table_empty(directives@);
        }
        let p = Self { directives, report_only: false };
        assert(p.directive_map() =~= Map::<Seq<char>, Seq<Seq<char>>>::empty());
        p
    }

    /// Parses a CSP header/meta value.
    pub fn parse(input: &str) -> (p: Self)
        ensures
            p.directive_map() == csp_parse_map(input@),
            !p.is_report_only(),
    {
        let mut policy = Self::new();
        let v = chars_of(input);
        let parts = crate::text::split_exec(v.as_slice(), ';');
        let ghost all = crate::text::split(v@, ';');
        let mut i: usize = 0;
        assert(all.take(0) =~= Seq::<Seq<char>>::empty());
        while i < parts.len()
            invariant
                i <= parts@.len(),
                all == crate::text::split(input@, ';'),
                parts@.len() == all.len(),
                forall|k: int| 0 <= k < parts@.len() ==> #[trigger] parts@[k]@ == all[k],
                policy.directive_map() == csp_fold(all.take(i as int)),
                !policy.is_report_only(),
            decreases parts.len() - i,
        {
            assert(all.take(i + 1).drop_last() =~= all.take(i as int));
            assert(all.take(i + 1).last() == all[i as int]);
            let toks = crate::text::ascii_tokens_exec(parts[i].as_slice());
            assert(toks@.map_values(|t: Vec<char>| t@) =~= crate::text::ascii_tokens(all[i as int]));
            if toks.len() > 0 {
                let kt = trim_chars(toks[0].as_slice());
                let key = lower_chars(kt.as_slice());
                if key.len() > 0 {
                    let values = directive_values_exec(&toks);
                    policy.insert_directive(string_from(key.as_slice()), values);
                }
            }
            i = i + 1;
        }
        assert(all.take(parts.len() as int) =~= all);
        policy
    }

    fn insert_directive(&mut self, key: String, values: Vec<String>)
        ensures
            final(self).directive_map() == old(self).directive_map().insert(key@, string_views(values@)),
            final(self).is_report_only() == old(self).is_report_only(),
    {
        proof {
            use_type_invariant(&*self);
        }
        let ghost old_d = self.directives@;
        let mut d: Vec<(String, Vec<String>)> = Vec::new();
        std::mem::swap(&mut d, &mut self.directives);
        table_insert(&mut d, key, values);
        self.directives = d;
        assert(self.directive_map() =~= table_map(old_d).map_values(|v: Vec<String>| string_views(v@)).insert(
            key@,
            string_views(values@),
        ));
    }

    /// Marks the policy report-only: violations give `ReportOnlyViolation` instead of `Blocked`.
    pub fn report_only(self, report_only: bool) -> (p: Self)
        ensures
            p.directive_map() == self.directive_map(),
            p.directive_entries() == self.directive_entries(),
            p.is_report_only() == report_only,
    {
        proof {
            use_type_invariant(&self);
        }
        Self { directives: self.directives, report_only }
    }

    /// Returns the directives, in increasing name order: one for each name
    /// of the policy, with its sources.
    pub fn directives(&self) -> (r: Vec<CspDirective>)
        ensures
            r@.len() == self.directive_map().dom().len(),
            forall|i: int, j: int| 0 <= i < j < r@.len() ==> lex_lt(#[trigger] r@[i].name@, #[trigger] r@[j].name@),
            forall|i: int| 0 <= i < r@.len() ==> self.directive_map().dom().contains(#[trigger] r@[i].name@)
                && self.directive_map()[r@[i].name@] == string_views(r@[i].sources@),
            r@.len() == self.directive_entries().len(),
            forall|i: int| 0 <= i < r@.len() ==> (#[trigger] r@[i]).name@ == self.directive_entries()[i].0
                && string_views(r@[i].sources@) == self.directive_entries()[i].1,
    {
        proof {
            use_type_invariant(self);
            crate::keyed::lemma_table_len(self.directives@);
            assert(self.directive_map().dom() =~= table_map(self.directives@).dom());
        }
        let mut r: Vec<CspDirective> = Vec::new();
        let mut i: usize = 0;
        while i < self.directives.len()
            invariant
                i <= self.directives@.len(),
                keys_sorted(self.directives@),
                r@.len() == i,
                forall|k: int| 0 <= k < i ==> (#[trigger] r@[k]).name@ == self.directives@[k].0@
                    && string_views(r@[k].sources@) == string_views(self.directives@[k].1@),
            decreases self.directives.len() - i,
        {
            let name = self.directives[i].0.clone();
            let sources = clone_strings(&self.directives[i].1);
            r.push(CspDirective { name, sources });
            i = i + 1;
        }
        proof {
            assert forall|a: int, b: int| 0 <= a < b < r@.len() implies lex_lt(
                #[trigger] r@[a].name@,
                #[trigger] r@[b].name@,
            ) by {
                assert(r@[a].name@ == self.directives@[a].0@);
                assert(r@[b].name@ == self.directives@[b].0@);
            }
            assert forall|k: int| 0 <= k < r@.len() implies self.directive_map().dom().contains(
                #[trigger] r@[k].name@,
            ) && self.directive_map()[r@[k].name@] == string_views(r@[k].sources@) by {
                crate::keyed::lemma_table_entry(self.directives@, k);
            }
        }
        r
    }

    /// Returns true when no directive is configured.
    pub fn is_empty(&self) -> (r: bool)
        ensures
            r == (self.directive_map().dom().len() == 0),
    {
        proof {
            use_type_invariant(self);
            crate::keyed::lemma_table_len_zero(self.directives@);
        }
        assert(self.directive_map().dom() =~= table_map(self.directives@).dom());
        self.directives.len() == 0
    }

    proof fn lemma_lookup_some(self, key: Seq<char>, v: Vec<String>)
        requires
            table_map(self.directives@).dom().contains(key),
            table_map(self.directives@)[key] == v,
        ensures
            self.directive_map().dom().contains(key),
            self.directive_map()[key] == string_views(v@),
    {
    }

    proof fn lemma_lookup_none(self, key: Seq<char>)
        requires
            !table_map(self.directives@).dom().contains(key),
        ensures
            !self.directive_map().dom().contains(key),
    {
    }

    /// Checks a URL against the destination's directive fallback chain.
    pub fn allows(
        &self,
        document_origin: &SecurityOrigin,
        destination: RequestDestination,
        target_url: &str,
        nonce: Option<&str>,
    ) -> (r: CspCheckResult)
        ensures
            r@ == csp_check(
                self.directive_map(),
                self.is_report_only(),
                document_origin@,
                destination,
                target_url@,
                match nonce {
                    Some(n) => Some(n@),
                    None => None,
                },
            ),
    {
        proof {
            use_type_invariant(self);
        }
        if self.is_empty() {
            return CspCheckResult::Allowed;
        }
        let chain = destination.csp_directives();
        let ghost gchain = csp_chain(destination);
        let ghost nonce_view = match nonce {
            Some(n) => Some(n@),
            None => None,
        };
        let ghost m = self.directive_map();
        let mut i: usize = 0;
        assert(gchain.skip(0) =~= gchain);
        while i < chain.len()
            invariant
                i <= chain@.len(),
                keys_sorted(self.directives@),
                m == self.directive_map(),
                m.dom().len() != 0,
                gchain == csp_chain(destination),
                chain@.len() == gchain.len(),
                forall|k: int| 0 <= k < chain@.len() ==> (#[trigger] chain@[k])@ == gchain[k],
                nonce_view == (match nonce {
                    Some(n) => Some(n@),
                    None => None,
                }),
                chain_check(m, self.report_only, gchain, document_origin@, target_url@, nonce_view)
                    == chain_check(
                    m,
                    self.report_only,
                    gchain.skip(i as int),
                    document_origin@,
                    target_url@,
                    nonce_view,
                ),
            decreases chain.len() - i,
        {
            let name = chains_of_str(chain[i]);
            match crate::keyed::table_get(&self.directives, name.as_slice()) {
                Some(sources) => {
                    proof {
                        self.lemma_lookup_some(name@, *sources);
                        lemma_chain_step(m, self.report_only, gchain, i as int, document_origin@, target_url@, nonce_view);
                    }
                    let allowed = source_list_allows(sources, document_origin, target_url, nonce);
                    if allowed {
                        return CspCheckResult::Allowed;
                    }
                    let d = owned(chain[i]);
                    assert(d@ == gchain[i as int]);

                    if self.report_only {
                        return CspCheckResult::ReportOnlyViolation(d);
                    }
                    return CspCheckResult::Blocked(d);
                },
                None => {
                    proof {
                        self.lemma_lookup_none(name@);
                        lemma_chain_step(m, self.report_only, gchain, i as int, document_origin@, target_url@, nonce_view);
                    }
                },
            }
            i = i + 1;
        }
        CspCheckResult::Allowed
    }
}

proof fn lemma_chain_step(
    m: Map<Seq<char>, Seq<Seq<char>>>,
    report_only: bool,
    chain: Seq<Seq<char>>,
    i: int,
    doc: OriginView,
    target_url: Seq<char>,
    nonce: Option<Seq<char>>,
)
    requires
        0 <= i < chain.len(),
    ensures
        chain_check(m, report_only, chain.skip(i), doc, target_url, nonce) == if m.dom().contains(chain[i]) {
            if source_list_allows_spec(m[chain[i]], doc, target_url, nonce) {
                CspVerdict::Allowed
            } else if report_only {
                CspVerdict::ReportOnly(chain[i])
            } else {
                CspVerdict::Blocked(chain[i])
            }
        } else {
            chain_check(m, report_only, chain.skip(i + 1), doc, target_url, nonce)
        },
{
    assert(chain.skip(i)[0] == chain[i]);
    assert(chain.skip(i).drop_first() =~= chain.skip(i + 1));
}

fn chains_of_str(s: &str) -> (v: Vec<char>)
    ensures
        v@ == s@,
{
    chars_of(s)
}

impl Clone for CspPolicyLite {
    fn clone(&self) -> (p: Self)
        ensures
            p.directive_map() == self.directive_map(),
            p.directive_entries() == self.directive_entries(),
            p.is_report_only() == self.is_report_only(),
    {
        proof {
            use_type_invariant(self);
        }
        let mut d: Vec<(String, Vec<String>)> = Vec::new();
        let mut i: usize = 0;
        while i < self.directives.len()
            invariant
                i <= self.directives@.len(),
                d@.len() == i,
                forall|k: int| 0 <= k < i ==> (#[trigger] d@[k]).0 == self.directives@[k].0
                    && string_views(d@[k].1@) == string_views(self.directives@[k].1@),
            decreases self.directives.len() - i,
        {
            let name = self.directives[i].0.clone();
            let sources = clone_strings(&self.directives[i].1);
            d.push((name, sources));
            i = i + 1;
        }
        proof {
            assert(keys_sorted(d@)) by {
                assert forall|a: int, b: int| 0 <= a < b < d@.len() implies crate::keyed::lex_lt(
                    #[trigger] d@[a].0@,
                    #[trigger] d@[b].0@,
                ) by {
                    assert(crate::keyed::lex_lt(self.directives@[a].0@, self.directives@[b].0@));
                }
            }
        }
        let p = Self { directives: d, report_only: self.report_only };
        proof {
            assert(p.directive_entries() =~= self.directive_entries());
            assert forall|k: Seq<char>| #[trigger] p.directive_map().dom().contains(k)
                == self.directive_map().dom().contains(k) by {
                if p.directive_map().dom().contains(k) {
                    let a = crate::keyed::key_pos(d@, k);
                    assert(self.directives@[a].0@ == k);
                }
                if self.directive_map().dom().contains(k) {
                    let a = crate::keyed::key_pos(self.directives@, k);
                    assert(d@[a].0@ == k);
                }
            }
            assert forall|k: Seq<char>| #[trigger] p.directive_map().dom().contains(k) implies p.directive_map()[k]
                == self.directive_map()[k] by {
                let a = crate::keyed::key_pos(d@, k);
                lemma_table_entry(d@, a);
                assert(self.directives@[a].0@ == k);
                lemma_table_entry(self.directives@, a);
            }
            assert(p.directive_map() =~= self.directive_map());
        }
        p
    }
}

impl Default for CspPolicyLite {
    fn default() -> (p: Self)
        ensures
            p.directive_map() == Map::<Seq<char>, Seq<Seq<char>>>::empty(),
            !p.is_report_only(),
    {
        Self::new()
    }
}

/// Copies a list of strings.
pub fn clone_strings(v: &Vec<String>) -> (r: Vec<String>)
    ensures
        r@ == v@,
        string_views(r@) == string_views(v@),
{
    let mut r: Vec<String> = Vec::new();
    let mut i: usize = 0;
    while i < v.len()
        invariant
            i <= v@.len(),
            r@ == v@.take(i as int),
        decreases v.len() - i,
    {
        r.push(v[i].clone());
        i = i + 1;
        assert(r@ =~= v@.take(i as int));
    }
    assert(v@.take(v.len() as int) =~= v@);
    r
}

fn directive_values_exec(toks: &Vec<Vec<char>>) -> (r: Vec<String>)
    requires
        toks@.len() >= 1,
    ensures
        string_views(r@) == directive_values(toks@.map_values(|t: Vec<char>| t@).skip(1)),
{
    let ghost all = toks@.map_values(|t: Vec<char>| t@).skip(1);
    let mut r: Vec<String> = Vec::new();
    let mut i: usize = 1;
    assert(all.take(0) =~= Seq::<Seq<char>>::empty());
    assert(string_views(r@) =~= Seq::<Seq<char>>::empty());
    while i < toks.len()
        invariant
            1 <= i <= toks@.len(),
            all == toks@.map_values(|t: Vec<char>| t@).skip(1),
            string_views(r@) == directive_values(all.take(i - 1)),
        decreases toks.len() - i,
    {
        assert(all.take(i as int).drop_last() =~= all.take(i - 1));
        assert(all.take(i as int).last() == toks@[i as int]@);
        let t = trim_chars(toks[i].as_slice());
        if t.len() > 0 {
            r.push(string_from(t.as_slice()));
            assert(string_views(r@) =~= directive_values(all.take(i - 1)).push(t@));
        }
        i = i + 1;
    }
    assert(all.take(toks.len() - 1) =~= all);
    r
}

fn source_list_allows(
    sources: &Vec<String>,
    document_origin: &SecurityOrigin,
    target_url: &str,
    nonce: Option<&str>,
) -> (r: bool)
    ensures
        r == source_list_allows_spec(
            string_views(sources@),
            document_origin@,
            target_url@,
            match nonce {
                Some(n) => Some(n@),
                None => None,
            },
        ),
{
    if sources.len() == 0 {
        return false;
    }
    let ghost nonce_view = match nonce {
        Some(n) => Some(n@),
        None => None,
    };
    let target_origin = SecurityOrigin::parse(target_url);
    let target_origin_string = target_origin.serialize();
    let tv = chars_of(target_url);
    let pieces = crate::text::split_exec(tv.as_slice(), ':');
    proof {
        crate::http::lemma_split_nonempty(tv@, ':');
    }
    let scheme = lower_chars(pieces[0].as_slice());
    let ghost srcs = string_views(sources@);
    let mut i: usize = 0;
    assert(srcs.skip(0) =~= srcs);
    while i < sources.len()
        invariant
            i <= sources@.len(),
            srcs == string_views(sources@),
            scheme@ == url_scheme(target_url@),
            target_origin@ == origin_from_url(target_url@),
            target_origin_string@ == serialize_origin(target_origin@),
            nonce_view == (match nonce {
                Some(n) => Some(n@),
                None => None,
            }),
            sources_allow(srcs, document_origin@, target_origin@, target_url@, scheme@, nonce_view)
                == sources_allow(srcs.skip(i as int), document_origin@, target_origin@, target_url@, scheme@, nonce_view),
        decreases sources.len() - i,
    {
        assert(srcs.skip(i as int)[0] == sources@[i as int]@);
        assert(srcs.skip(i as int).drop_first() =~= srcs.skip(i + 1));
        match source_verdict_exec(
            sources[i].as_str(),
            document_origin,
            &target_origin,
            target_origin_string.as_str(),
            target_url,
            scheme.as_slice(),
            nonce,
        ) {
            Some(b) => return b,
            None => {},
        }
        i = i + 1;
    }
    false
}

fn source_verdict_exec(
    src: &str,
    doc: &SecurityOrigin,
    target_origin: &SecurityOrigin,
    target_origin_string: &str,
    target_url: &str,
    scheme: &[char],
    nonce: Option<&str>,
) -> (r: Option<bool>)
    requires
        target_origin_string@ == serialize_origin(target_origin@),
    ensures
        r == source_verdict(
            src@,
            doc@,
            target_origin@,
            target_url@,
            scheme@,
            match nonce {
                Some(n) => Some(n@),
                None => None,
            },
        ),
{
    let sv = chars_of(src);
    let st = trim_chars(sv.as_slice());
    let value = strip_chars_q(st.as_slice(), '"');
    let unquoted = strip_chars_q(value.as_slice(), '\'');
    let v = value.as_slice();
    let u = unquoted.as_slice();
    if is_lit(v, "*") {
        return Some(true);
    }
    if is_lit(v, "'none'") || is_lit(u, "none") {
        return Some(false);
    }
    if (is_lit(v, "'self'") || is_lit(u, "self")) && doc.same_origin(target_origin) {
        return Some(true);
    }
    let required = source_nonce_exec(v, u);
    match (&required, nonce) {
        (Some(req), Some(n)) => {
            let nv = chars_of(n);
            if chars_eq(req.as_slice(), nv.as_slice()) {
                return Some(true);
            }
        },
        _ => {},
    }
    let colon = chars_of(":");
    if crate::text::ends_with_exec(v, colon.as_slice()) {
        let trimmed = crate::text::strip_end_chars(v, ':');
        let tl = lower_chars(trimmed.as_slice());
        let sl = lower_chars(scheme);
        if chars_eq(tl.as_slice(), sl.as_slice()) {
            return Some(true);
        }
    }
    let sep = chars_of("://");
    if crate::text::contains_exec(v, sep.as_slice()) {
        let vs = string_from(v);
        let allowed_origin = SecurityOrigin::parse(vs.as_str()).serialize();
        if crate::text::str_eq(allowed_origin.as_str(), target_origin_string) {
            return Some(true);
        }
        return None;
    }
    if host_matches_exec(v, target_url) {
        return Some(true);
    }
    None
}

fn strip_chars_q(v: &[char], c: char) -> (r: Vec<char>)
    ensures
        r@ == strip(v@, c),
{
    crate::text::strip_chars(v, c)
}

fn source_nonce_exec(value: &[char], unquoted: &[char]) -> (r: Option<Vec<char>>)
    ensures
        match r {
            Some(n) => source_nonce(value@, unquoted@) == Some(n@),
            None => source_nonce(value@, unquoted@) is None,
        },
{
    let p1 = chars_of("'nonce-");
    let q = chars_of("'");
    proof {
        reveal_strlit("'nonce-");
        reveal_strlit("nonce-");
        reveal_strlit("'");
    }
    if crate::text::starts_with_exec(value, p1.as_slice()) {
        let rest = slice_vec(value, 7, value.len());
        assert(rest@ =~= value@.skip(7));
        if crate::text::ends_with_exec(rest.as_slice(), q.as_slice()) {
            let n = slice_vec(rest.as_slice(), 0, rest.len() - 1);
            assert(n@ =~= rest@.drop_last());
            return Some(n);
        }
    }
    let p2 = chars_of("nonce-");
    if crate::text::starts_with_exec(unquoted, p2.as_slice()) {
        let n = slice_vec(unquoted, 6, unquoted.len());
        assert(n@ =~= unquoted@.skip(6));
        return Some(n);
    }
    None
}

fn host_matches_exec(source: &[char], target_url: &str) -> (r: bool)
    ensures
        r == host_matches(source@, target_url@),
{
    match SecurityOrigin::parse(target_url) {
        SecurityOrigin::Tuple { host, .. } => {
            let h = chars_of(host.as_str());
            let star = chars_of("*.");
            proof {
                reveal_strlit("*.");
            }
            if crate::text::starts_with_exec(source, star.as_slice()) {
                let rest = slice_vec(source, 2, source.len());
                assert(rest@ =~= source@.skip(2));
                let mut dotted: Vec<char> = vec!['.'];
                let mut k: usize = 0;
                while k < rest.len()
                    invariant
                        k <= rest@.len(),
                        dotted@ == seq!['.'] + rest@.take(k as int),
                    decreases rest.len() - k,
                {
                    dotted.push(rest[k]);
                    k = k + 1;
                    assert(dotted@ =~= seq!['.'] + rest@.take(k as int));
                }
                proof {
                    reveal_strlit(".");
                    assert(rest@.take(rest@.len() as int) =~= rest@);
                    assert(dotted@ =~= "."@ + rest@);
                }
                return chars_eq(h.as_slice(), rest.as_slice()) || crate::text::ends_with_exec(
                    h.as_slice(),
                    dotted.as_slice(),
                );
            }
            let l = lower_chars(source);
            chars_eq(h.as_slice(), l.as_slice())
        },
        SecurityOrigin::Opaque(_) => false,
    }
}


// ---------------------------------------------------------------------------
// Context and requests
// ---------------------------------------------------------------------------

/// Security context for one document or worker.
#[derive(Debug, Clone, PartialEq, Eq)]
pub struct SecurityContext {
    pub document_url: String,
    pub origin: SecurityOrigin,
    pub top_level_origin: SecurityOrigin,
    pub csp: CspPolicyLite,
    pub sandbox: SandboxPolicy,
    pub referrer_policy: ReferrerPolicyLite,
    pub mixed_content: MixedContentPolicy,
    pub secure_context_required_for_service_worker: bool,
}

/// View of an optional string.
pub open spec fn opt_view(o: Option<String>) -> Option<Seq<char>> {
    match o {
        Some(s) => Some(s@),
        None => None,
    }
}

/// Going from an HTTPS document to an HTTP target.
pub open spec fn is_downgrade_spec(document_url: Seq<char>, target_url: Seq<char>) -> bool {
    crate::text::starts_with(lower(document_url), "https://"@) && crate::text::starts_with(
        lower(target_url),
        "http://"@,
    )
}

/// Referrer sent to a target under the context's referrer policy.
pub open spec fn referrer_spec(ctx: SecurityContext, target_url: Seq<char>) -> Option<Seq<char>> {
    let same = ctx.origin@ == origin_from_url(target_url);
    match ctx.referrer_policy {
        ReferrerPolicyLite::NoReferrer => None,
        ReferrerPolicyLite::UnsafeUrl => Some(ctx.document_url@),
        ReferrerPolicyLite::Origin => Some(serialize_origin(ctx.origin@)),
        ReferrerPolicyLite::SameOrigin => if same {
            Some(ctx.document_url@)
        } else {
            None
        },
        ReferrerPolicyLite::StrictOriginWhenCrossOrigin => if same {
            Some(ctx.document_url@)
        } else if !is_downgrade_spec(ctx.document_url@, target_url) {
            Some(serialize_origin(ctx.origin@))
        } else {
            None
        },
    }
}

fn copy_origin(o: &SecurityOrigin) -> (r: SecurityOrigin)
    ensures
        r@ == o@,
{
    match o {
        SecurityOrigin::Tuple { scheme, host, port } => SecurityOrigin::Tuple {
            scheme: scheme.clone(),
            host: host.clone(),
            port: *port,
        },
        SecurityOrigin::Opaque(label) => SecurityOrigin::Opaque(label.clone()),
    }
}

fn is_downgrade(document_url: &str, target_url: &str) -> (r: bool)
    ensures
        r == is_downgrade_spec(document_url@, target_url@),
{
    let d = chars_of(document_url);
    let t = chars_of(target_url);
    let dl = lower_chars(d.as_slice());
    let tl = lower_chars(t.as_slice());
    let https = chars_of("https://");
    let http = chars_of("http://");
    crate::text::starts_with_exec(dl.as_slice(), https.as_slice()) && crate::text::starts_with_exec(
        tl.as_slice(),
        http.as_slice(),
    )
}

impl SecurityContext {
    /// Default context for a document URL: no CSP, no sandbox,
    /// strict-origin-when-cross-origin referrers, passive mixed content allowed.
    pub fn new(document_url: &str) -> (c: Self)
        ensures
            c.document_url@ == document_url@,
            c.origin@ == origin_from_url(document_url@),
            c.top_level_origin@ == c.origin@,
            c.csp.directive_map() == Map::<Seq<char>, Seq<Seq<char>>>::empty(),
            !c.csp.is_report_only(),
            c.sandbox == unsandboxed_policy(),
            c.referrer_policy == ReferrerPolicyLite::StrictOriginWhenCrossOrigin,
            c.mixed_content == MixedContentPolicy::AllowPassive,
            c.secure_context_required_for_service_worker,
    {
        let origin = SecurityOrigin::parse(document_url);
        let top_level_origin = copy_origin(&origin);
        Self {
            document_url: owned(document_url),
            top_level_origin,
            origin,
            csp: CspPolicyLite::new(),
            sandbox: SandboxPolicy::unsandboxed(),
            referrer_policy: ReferrerPolicyLite::StrictOriginWhenCrossOrigin,
            mixed_content: MixedContentPolicy::AllowPassive,
            secure_context_required_for_service_worker: true,
        }
    }

    /// Replaces the CSP with the parsed header/meta text.
    pub fn with_csp(self, csp: &str) -> (c: Self)
        ensures
            c.csp.directive_map() == csp_parse_map(csp@),
            !c.csp.is_report_only(),
            c.document_url == self.document_url,
            c.origin == self.origin,
            c.top_level_origin == self.top_level_origin,
            c.sandbox == self.sandbox,
            c.referrer_policy == self.referrer_policy,
            c.mixed_content == self.mixed_content,
            c.secure_context_required_for_service_worker == self.secure_context_required_for_service_worker,
    {
        let mut c = self;
        c.csp = CspPolicyLite::parse(csp);
        c
    }

    /// Applies sandbox tokens; without `allow-same-origin` the document
    /// gets an opaque origin derived from its URL.
    pub fn with_sandbox_tokens(self, tokens: &str) -> (c: Self)
        ensures
            c.sandbox == sandbox_from(tokens@),
            c.origin@ == (if c.sandbox.allow_same_origin {
                self.origin@
            } else {
                OriginView::Opaque(opaque_label(self.document_url@))
            }),
            c.document_url == self.document_url,
            c.top_level_origin == self.top_level_origin,
            c.csp == self.csp,
            c.referrer_policy == self.referrer_policy,
            c.mixed_content == self.mixed_content,
            c.secure_context_required_for_service_worker == self.secure_context_required_for_service_worker,
    {
        let mut c = self;
        c.sandbox = SandboxPolicy::from_tokens(tokens);
        if !c.sandbox.allow_same_origin {
            c.origin = SecurityOrigin::Opaque(stable_opaque_label(c.document_url.as_str()));
        }
        c
    }

    /// Whether the document is a secure context (potentially trustworthy origin).
    pub fn is_secure_context(&self) -> (r: bool)
        ensures
            r == is_trustworthy_spec(self.origin@),
    {
        self.origin.is_potentially_trustworthy()
    }

    /// Referrer value for a target URL under the referrer policy.
    pub fn referrer_for(&self, target_url: &str) -> (r: Option<String>)
        ensures
            opt_view(r) == referrer_spec(*self, target_url@),
    {
        match self.referrer_policy {
            ReferrerPolicyLite::NoReferrer => None,
            ReferrerPolicyLite::UnsafeUrl => Some(self.document_url.clone()),
            ReferrerPolicyLite::Origin => Some(self.origin.serialize()),
            ReferrerPolicyLite::SameOrigin => {
                let target_origin = SecurityOrigin::parse(target_url);
                if self.origin.same_origin(&target_origin) {
                    Some(self.document_url.clone())
                } else {
                    None
                }
            },
            ReferrerPolicyLite::StrictOriginWhenCrossOrigin => {
                let target_origin = SecurityOrigin::parse(target_url);
                if self.origin.same_origin(&target_origin) {
                    Some(self.document_url.clone())
                } else if !is_downgrade(self.document_url.as_str(), target_url) {
                    Some(self.origin.serialize())
                } else {
                    None
                }
            },
        }
    }
}

/// Security request input.
#[derive(Debug, Clone, PartialEq, Eq)]
pub struct SecurityRequest {
    pub url: String,
    pub method: String,
    pub destination: RequestDestination,
    pub mode: RequestMode,
    pub credentials: CredentialsMode,
    pub initiator: String,
    /// Response headers as (name, value) pairs.
    pub response_headers: Vec<(String, String)>,
    pub nonce: Option<String>,
}

/// Model of a request.
pub struct RequestView {
    pub url: Seq<char>,
    pub method: Seq<char>,
    pub destination: RequestDestination,
    pub mode: RequestMode,
    pub credentials: CredentialsMode,
    pub initiator: Seq<char>,
    pub headers: Seq<(Seq<char>, Seq<char>)>,
    pub nonce: Option<Seq<char>>,
}

/// Views of (name, value) string pairs.
pub open spec fn pair_views(v: Seq<(String, String)>) -> Seq<(Seq<char>, Seq<char>)> {
    v.map_values(|p: (String, String)| (p.0@, p.1@))
}

impl View for SecurityRequest {
    type V = RequestView;

    open spec fn view(&self) -> RequestView {
        RequestView {
            url: self.url@,
            method: self.method@,
            destination: self.destination,
            mode: self.mode,
            credentials: self.credentials,
            initiator: self.initiator@,
            headers: pair_views(self.response_headers@),
            nonce: opt_view(self.nonce),
        }
    }
}

/// A `GET` request with CORS mode, same-origin credentials and no headers.
pub open spec fn default_request(url: Seq<char>, destination: RequestDestination) -> RequestView {
    RequestView {
        url,
        method: "GET"@,
        destination,
        mode: RequestMode::Cors,
        credentials: CredentialsMode::SameOrigin,
        initiator: Seq::empty(),
        headers: Seq::empty(),
        nonce: None,
    }
}

impl SecurityRequest {
    /// Creates a request with browser-like defaults.
    pub fn new(url: &str, destination: RequestDestination) -> (r: Self)
        ensures
            r@ == default_request(url@, destination),
    {
        let r = Self {
            url: owned(url),
            method: owned("GET"),
            destination,
            mode: RequestMode::Cors,
            credentials: CredentialsMode::SameOrigin,
            initiator: String::new(),
            response_headers: Vec::new(),
            nonce: None,
        };
        assert(r@.headers =~= Seq::<(Seq<char>, Seq<char>)>::empty());
        r
    }

    /// Sets the request mode.
    pub fn mode(self, mode: RequestMode) -> (r: Self)
        ensures
            r@ == (RequestView { mode, ..self@ }),
    {
        let mut r = self;
        r.mode = mode;
        r
    }

    /// Sets the credentials mode.
    pub fn credentials(self, credentials: CredentialsMode) -> (r: Self)
        ensures
            r@ == (RequestView { credentials, ..self@ }),
    {
        let mut r = self;
        r.credentials = credentials;
        r
    }

    /// Sets the method, upper-cased.
    pub fn method(self, method: &str) -> (r: Self)
        ensures
            r@ == (RequestView { method: crate::text::upper(method@), ..self@ }),
    {
        let mut r = self;
        r.method = crate::text::to_upper(method);
        r
    }
}

/// Index of the header entry named `name` (ASCII case-insensitively) among the
/// first `n`; where several match, the one whose name sorts first, and the
/// latest of equal names, as a map built from the entries in order would
/// yield it.
pub open spec fn header_pick(h: Seq<(Seq<char>, Seq<char>)>, name: Seq<char>, n: nat) -> Option<int>
    decreases n,
{
    if n == 0 {
        None
    } else {
        let prev = header_pick(h, name, (n - 1) as nat);
        let k = n - 1;
        if crate::text::eq_ignore_case(h[k].0, name) {
            match prev {
                Some(j) => if crate::keyed::lex_lt(h[k].0, h[j].0) || h[k].0 == h[j].0 {
                    Some(k)
                } else {
                    Some(j)
                },
                None => Some(k),
            }
        } else {
            prev
        }
    }
}

/// Trimmed value of the header named `name`, ignoring ASCII case.
pub open spec fn header_value(h: Seq<(Seq<char>, Seq<char>)>, name: Seq<char>) -> Option<Seq<char>> {
    match header_pick(h, name, h.len()) {
        Some(j) => Some(trim(h[j].1)),
        None => None,
    }
}

/// `Access-Control-Allow-Origin` is `*` or the document's serialized origin.
pub open spec fn cors_allows_spec(doc: OriginView, h: Seq<(Seq<char>, Seq<char>)>) -> bool {
    match header_value(h, "access-control-allow-origin"@) {
        Some(v) => v == "*"@ || crate::text::eq_ignore_case(v, serialize_origin(doc)),
        None => false,
    }
}

/// `Access-Control-Allow-Credentials` is `true`, ignoring ASCII case.
pub open spec fn cors_credentials_spec(h: Seq<(Seq<char>, Seq<char>)>) -> bool {
    match header_value(h, "access-control-allow-credentials"@) {
        Some(v) => crate::text::eq_ignore_case(v, "true"@),
        None => false,
    }
}

proof fn lemma_header_pick_bound(h: Seq<(Seq<char>, Seq<char>)>, name: Seq<char>, n: nat)
    ensures
        match header_pick(h, name, n) {
            Some(j) => 0 <= j < n,
            None => true,
        },
    decreases n,
{
    if n > 0 {
        lemma_header_pick_bound(h, name, (n - 1) as nat);
    }
}

fn header_ci(headers: &Vec<(String, String)>, name: &str) -> (r: Option<String>)
    ensures
        opt_view(r) == header_value(pair_views(headers@), name@),
{
    let ghost h = pair_views(headers@);
    let mut best: Option<usize> = None;
    let mut i: usize = 0;
    while i < headers.len()
        invariant
            i <= headers@.len(),
            h == pair_views(headers@),
            match best {
                Some(j) => j < i && header_pick(h, name@, i as nat) == Some(j as int),
                None => header_pick(h, name@, i as nat) is None,
            },
        decreases headers.len() - i,
    {
        assert(h[i as int] == (headers@[i as int].0@, headers@[i as int].1@));
        if crate::text::str_eq_ignore_case(headers[i].0.as_str(), name) {
            match best {
                Some(j) => {
                    assert(h[j as int] == (headers@[j as int].0@, headers@[j as int].1@));
                    let a = chars_of(headers[i].0.as_str());
                    let b = chars_of(headers[j].0.as_str());
                    if crate::keyed::lex_compare(a.as_slice(), b.as_slice()) <= 0 {
                        best = Some(i);
                    }
                },
                None => {
                    best = Some(i);
                },
            }
        }
        i = i + 1;
    }
    match best {
        Some(j) => {
            assert(h[j as int] == (headers@[j as int].0@, headers@[j as int].1@));
            Some(crate::text::trim_str(headers[j].1.as_str()))
        },
        None => None,
    }
}

fn cors_lite_allows(document_origin: &SecurityOrigin, request: &SecurityRequest) -> (r: bool)
    ensures
        r == cors_allows_spec(document_origin@, request@.headers),
{
    match header_ci(&request.response_headers, "access-control-allow-origin") {
        Some(allow_origin) => {
            let origin = document_origin.serialize();
            crate::text::str_eq(allow_origin.as_str(), "*") || crate::text::str_eq_ignore_case(
                allow_origin.as_str(),
                origin.as_str(),
            )
        },
        None => false,
    }
}

fn cors_credentials_allowed(request: &SecurityRequest) -> (r: bool)
    ensures
        r == cors_credentials_spec(request@.headers),
{
    match header_ci(&request.response_headers, "access-control-allow-credentials") {
        Some(value) => crate::text::str_eq_ignore_case(value.as_str(), "true"),
        None => false,
    }
}


// ---------------------------------------------------------------------------
// Decisions
// ---------------------------------------------------------------------------

/// Final security decision.
#[derive(Debug, Clone, PartialEq, Eq, Structural)]
pub enum SecurityDecisionKind {
    Allowed,
    AllowedOpaque,
    AllowedWithWarnings,
    Blocked,
}

/// Security violation kind.
#[derive(Debug, Clone, PartialEq, Eq, Structural)]
pub enum SecurityViolationKind {
    InvalidUrl,
    SameOrigin,
    Cors,
    Csp,
    Sandbox,
    MixedContent,
    SecureContext,
    Method,
}

/// One security violation.
#[derive(Debug, Clone, PartialEq, Eq)]
pub struct SecurityViolation {
    pub kind: SecurityViolationKind,
    pub url: String,
    pub message: String,
    pub directive: Option<String>,
}

/// Model of a violation.
pub struct ViolationView {
    pub kind: SecurityViolationKind,
    pub url: Seq<char>,
    pub message: Seq<char>,
    pub directive: Option<Seq<char>>,
}

impl View for SecurityViolation {
    type V = ViolationView;

    open spec fn view(&self) -> ViolationView {
        ViolationView {
            kind: self.kind,
            url: self.url@,
            message: self.message@,
            directive: opt_view(self.directive),
        }
    }
}

/// Views of a list of violations.
pub open spec fn violation_views(v: Seq<SecurityViolation>) -> Seq<ViolationView> {
    v.map_values(|x: SecurityViolation| x@)
}

/// Full decision with diagnostics.
#[derive(Debug, Clone, PartialEq, Eq)]
pub struct SecurityDecision {
    pub kind: SecurityDecisionKind,
    pub request_url: String,
    pub target_origin: SecurityOrigin,
    pub same_origin: bool,
    pub credentials_allowed: bool,
    pub referrer: Option<String>,
    pub violations: Vec<SecurityViolation>,
    pub warnings: Vec<String>,
}

/// Model of a decision.
pub struct DecisionView {
    pub kind: SecurityDecisionKind,
    pub request_url: Seq<char>,
    pub target_origin: OriginView,
    pub same_origin: bool,
    pub credentials_allowed: bool,
    pub referrer: Option<Seq<char>>,
    pub violations: Seq<ViolationView>,
    pub warnings: Seq<Seq<char>>,
}

impl View for SecurityDecision {
    type V = DecisionView;

    open spec fn view(&self) -> DecisionView {
        DecisionView {
            kind: self.kind,
            request_url: self.request_url@,
            target_origin: self.target_origin@,
            same_origin: self.same_origin,
            credentials_allowed: self.credentials_allowed,
            referrer: opt_view(self.referrer),
            violations: violation_views(self.violations@),
            warnings: string_views(self.warnings@),
        }
    }
}

/// A refused request: one violation, no credentials, no referrer.
pub open spec fn blocked_view(
    url: Seq<char>,
    target_origin: OriginView,
    same_origin: bool,
    violation: ViolationView,
) -> DecisionView {
    DecisionView {
        kind: SecurityDecisionKind::Blocked,
        request_url: url,
        target_origin,
        same_origin,
        credentials_allowed: false,
        referrer: None,
        violations: seq![violation],
        warnings: Seq::empty(),
    }
}

impl SecurityDecision {
    /// Returns true if the request may proceed.
    pub fn is_allowed(&self) -> (r: bool)
        ensures
            r == (self.kind != SecurityDecisionKind::Blocked),
    {
        !matches!(self.kind, SecurityDecisionKind::Blocked)
    }

    /// Returns true if the response is opaque to script.
    pub fn is_opaque(&self) -> (r: bool)
        ensures
            r == (self.kind == SecurityDecisionKind::AllowedOpaque),
    {
        matches!(self.kind, SecurityDecisionKind::AllowedOpaque)
    }

    fn blocked(url: String, target_origin: SecurityOrigin, same_origin: bool, violation: SecurityViolation) -> (d: Self)
        ensures
            d@ == blocked_view(url@, target_origin@, same_origin, violation@),
    {
        let d = Self {
            kind: SecurityDecisionKind::Blocked,
            request_url: url,
            target_origin,
            same_origin,
            credentials_allowed: false,
            referrer: None,
            violations: vec![violation],
            warnings: Vec::new(),
        };
        assert(d@.violations =~= seq![violation@]);
        assert(d@.warnings =~= Seq::<Seq<char>>::empty());
        d
    }
}

fn violation(kind: SecurityViolationKind, url: &str, message: &str, directive: Option<String>) -> (v: SecurityViolation)
    ensures
        v@ == (ViolationView { kind, url: url@, message: message@, directive: opt_view(directive) }),
{
    SecurityViolation { kind, url: owned(url), message: owned(message), directive }
}

// ---------------------------------------------------------------------------
// Request outcome
// ---------------------------------------------------------------------------

/// Which rule decided a request.
pub enum SecurityOutcome {
    InvalidUrl,
    SandboxScript,
    SandboxServiceWorker,
    SandboxNavigation,
    MixedContent,
    SecureContext,
    CspReportOnly(Seq<char>),
    CspBlocked(Seq<char>),
    SameOriginMode,
    Opaque,
    CorsRefused,
    CredentialsRefused,
    Allowed,
}

/// Sandbox gate.
pub open spec fn sandbox_outcome(s: SandboxPolicy, req: RequestView) -> Option<SecurityOutcome> {
    if req.destination == RequestDestination::Script && !s.allow_scripts {
        Some(SecurityOutcome::SandboxScript)
    } else if req.destination == RequestDestination::ServiceWorker && !s.allow_scripts {
        Some(SecurityOutcome::SandboxServiceWorker)
    } else if req.destination == RequestDestination::Document && req.mode == RequestMode::Navigate
        && !s.allow_top_navigation {
        Some(SecurityOutcome::SandboxNavigation)
    } else {
        None
    }
}

/// Mixed-content gate: an HTTP load from an HTTPS document that the policy refuses.
pub open spec fn mixed_content_blocked_spec(ctx: SecurityContext, req: RequestView) -> bool {
    is_downgrade_spec(ctx.document_url@, req.url) && match ctx.mixed_content {
        MixedContentPolicy::AllowAll => false,
        MixedContentPolicy::AllowPassive => !(req.destination == RequestDestination::Image
            || req.destination == RequestDestination::Media),
        MixedContentPolicy::BlockAll => true,
    }
}

/// The gates checked before CSP, in order.
pub open spec fn gate_outcome(ctx: SecurityContext, req: RequestView) -> Option<SecurityOutcome> {
    if !is_network_tuple_spec(origin_from_url(req.url)) {
        Some(SecurityOutcome::InvalidUrl)
    } else if sandbox_outcome(ctx.sandbox, req) is Some {
        sandbox_outcome(ctx.sandbox, req)
    } else if mixed_content_blocked_spec(ctx, req) {
        Some(SecurityOutcome::MixedContent)
    } else if req.destination == RequestDestination::ServiceWorker
        && ctx.secure_context_required_for_service_worker && !is_trustworthy_spec(ctx.origin@) {
        Some(SecurityOutcome::SecureContext)
    } else {
        None
    }
}

/// CSP decision for a request in a context.
pub open spec fn request_csp(ctx: SecurityContext, req: RequestView) -> CspVerdict {
    csp_check(
        ctx.csp.directive_map(),
        ctx.csp.is_report_only(),
        ctx.origin@,
        req.destination,
        req.url,
        req.nonce,
    )
}

/// Whether the request targets the context's own origin.
pub open spec fn request_same_origin(ctx: SecurityContext, req: RequestView) -> bool {
    ctx.origin@ == origin_from_url(req.url)
}

/// Rules after CSP: request mode, CORS-lite, credentials.
pub open spec fn mode_outcome(ctx: SecurityContext, req: RequestView) -> SecurityOutcome {
    let same = request_same_origin(ctx, req);
    if !same && req.mode == RequestMode::SameOrigin {
        SecurityOutcome::SameOriginMode
    } else if !same && req.mode == RequestMode::NoCors {
        SecurityOutcome::Opaque
    } else if !same && req.mode == RequestMode::Cors && !cors_allows_spec(ctx.origin@, req.headers) {
        SecurityOutcome::CorsRefused
    } else if !same && req.credentials == CredentialsMode::Include && !cors_credentials_spec(req.headers) {
        SecurityOutcome::CredentialsRefused
    } else {
        SecurityOutcome::Allowed
    }
}

/// The rule that decides a request.
pub open spec fn request_outcome(ctx: SecurityContext, req: RequestView) -> SecurityOutcome {
    match gate_outcome(ctx, req) {
        Some(o) => o,
        None => match request_csp(ctx, req) {
            CspVerdict::ReportOnly(d) => SecurityOutcome::CspReportOnly(d),
            CspVerdict::Blocked(d) => SecurityOutcome::CspBlocked(d),
            CspVerdict::Allowed => mode_outcome(ctx, req),
        },
    }
}

/// A CORS-lite check was made for the request.
pub open spec fn cors_checked(ctx: SecurityContext, req: RequestView) -> bool {
    &&& gate_outcome(ctx, req) is None
    &&& request_csp(ctx, req) is Allowed
    &&& !request_same_origin(ctx, req)
    &&& req.mode == RequestMode::Cors
}

/// Violation recorded for an outcome, if it refuses the request.
pub open spec fn outcome_violation(o: SecurityOutcome, url: Seq<char>) -> Option<ViolationView> {
    let v = |kind: SecurityViolationKind, message: Seq<char>, directive: Option<Seq<char>>|
        ViolationView { kind, url, message, directive };
    match o {
        SecurityOutcome::InvalidUrl => Some(
            v(SecurityViolationKind::InvalidUrl, "unsupported or opaque target URL"@, None),
        ),
        SecurityOutcome::SandboxScript => Some(
            v(SecurityViolationKind::Sandbox, "sandbox blocks script execution/loading"@, None),
        ),
        SecurityOutcome::SandboxServiceWorker => Some(
            v(SecurityViolationKind::Sandbox, "sandbox blocks service worker registration"@, None),
        ),
        SecurityOutcome::SandboxNavigation => Some(
            v(SecurityViolationKind::Sandbox, "sandbox blocks top navigation"@, None),
        ),
        SecurityOutcome::MixedContent => Some(
            v(SecurityViolationKind::MixedContent, "blocked mixed content downgrade"@, None),
        ),
        SecurityOutcome::SecureContext => Some(
            v(SecurityViolationKind::SecureContext, "service workers require a secure context"@, None),
        ),
        SecurityOutcome::CspBlocked(d) => Some(v(SecurityViolationKind::Csp, "blocked by CSP-lite"@, Some(d))),
        SecurityOutcome::SameOriginMode => Some(
            v(SecurityViolationKind::SameOrigin, "same-origin request targeted a different origin"@, None),
        ),
        SecurityOutcome::CorsRefused => Some(
            v(
                SecurityViolationKind::Cors,
                "CORS-lite response headers did not allow this origin"@,
                None,
            ),
        ),
        _ => None,
    }
}

/// Kind of the decision for an outcome.
pub open spec fn outcome_kind(o: SecurityOutcome) -> SecurityDecisionKind {
    match o {
        SecurityOutcome::Allowed => SecurityDecisionKind::Allowed,
        SecurityOutcome::Opaque => SecurityDecisionKind::AllowedOpaque,
        SecurityOutcome::CspReportOnly(_) => SecurityDecisionKind::AllowedWithWarnings,
        SecurityOutcome::CredentialsRefused => SecurityDecisionKind::AllowedWithWarnings,
        _ => SecurityDecisionKind::Blocked,
    }
}

/// Warnings attached to an allowed decision.
pub open spec fn outcome_warnings(o: SecurityOutcome) -> Seq<Seq<char>> {
    match o {
        SecurityOutcome::CspReportOnly(d) => seq!["CSP report-only violation: "@ + d],
        SecurityOutcome::CredentialsRefused => seq![
            "credentials requested but Access-Control-Allow-Credentials was not true"@,
        ],
        _ => Seq::empty(),
    }
}

/// Credentials sent with an allowed request.
pub open spec fn credentials_spec(req: RequestView, same: bool) -> bool {
    match req.credentials {
        CredentialsMode::Omit => false,
        CredentialsMode::SameOrigin => same,
        CredentialsMode::Include => same || cors_credentials_spec(req.headers),
    }
}

/// The decision for a request in a context.
pub open spec fn expected_decision(ctx: SecurityContext, req: RequestView) -> DecisionView {
    let target = origin_from_url(req.url);
    let same = request_same_origin(ctx, req);
    let o = request_outcome(ctx, req);
    match outcome_violation(o, req.url) {
        Some(v) => blocked_view(req.url, target, same, v),
        None => DecisionView {
            kind: outcome_kind(o),
            request_url: req.url,
            target_origin: target,
            same_origin: same,
            credentials_allowed: credentials_spec(req, same),
            referrer: referrer_spec(ctx, req.url),
            violations: Seq::empty(),
            warnings: outcome_warnings(o),
        },
    }
}


// ---------------------------------------------------------------------------
// Metrics
// ---------------------------------------------------------------------------

/// Security counters.
#[derive(Debug, Clone, Copy, PartialEq, Eq, Structural)]
pub struct SecurityMetrics {
    pub decisions: u64,
    pub allowed: u64,
    pub allowed_opaque: u64,
    pub allowed_with_warnings: u64,
    pub blocked: u64,
    pub same_origin_requests: u64,
    pub cross_origin_requests: u64,
    pub cors_preflight_like_checks: u64,
    pub csp_blocks: u64,
    pub sandbox_blocks: u64,
    pub mixed_content_blocks: u64,
    pub secure_context_blocks: u64,
}

/// All counters at zero.
pub open spec fn zero_metrics() -> SecurityMetrics {
    SecurityMetrics {
        decisions: 0,
        allowed: 0,
        allowed_opaque: 0,
        allowed_with_warnings: 0,
        blocked: 0,
        same_origin_requests: 0,
        cross_origin_requests: 0,
        cors_preflight_like_checks: 0,
        csp_blocks: 0,
        sandbox_blocks: 0,
        mixed_content_blocks: 0,
        secure_context_blocks: 0,
    }
}

impl Default for SecurityMetrics {
    fn default() -> (m: Self)
        ensures
            m == zero_metrics(),
    {
        SecurityMetrics {
            decisions: 0,
            allowed: 0,
            allowed_opaque: 0,
            allowed_with_warnings: 0,
            blocked: 0,
            same_origin_requests: 0,
            cross_origin_requests: 0,
            cors_preflight_like_checks: 0,
            csp_blocks: 0,
            sandbox_blocks: 0,
            mixed_content_blocks: 0,
            secure_context_blocks: 0,
        }
    }
}

/// Saturating increment when `b` holds.
pub open spec fn bump(x: u64, b: bool) -> u64 {
    if b && x < u64::MAX {
        (x + 1) as u64
    } else {
        x
    }
}

/// Counters after one decision with the given outcome.
pub open spec fn metrics_step(m: SecurityMetrics, o: SecurityOutcome, same: bool, cors: bool) -> SecurityMetrics {
    SecurityMetrics {
        decisions: bump(m.decisions, true),
        allowed: bump(m.allowed, o is Allowed),
        allowed_opaque: bump(m.allowed_opaque, o is Opaque),
        allowed_with_warnings: bump(
            m.allowed_with_warnings,
            outcome_kind(o) == SecurityDecisionKind::AllowedWithWarnings,
        ),
        blocked: bump(m.blocked, outcome_kind(o) == SecurityDecisionKind::Blocked),
        same_origin_requests: bump(m.same_origin_requests, same),
        cross_origin_requests: bump(m.cross_origin_requests, !same),
        cors_preflight_like_checks: bump(m.cors_preflight_like_checks, cors),
        csp_blocks: bump(m.csp_blocks, o is CspBlocked),
        sandbox_blocks: bump(
            m.sandbox_blocks,
            o is SandboxScript || o is SandboxServiceWorker || o is SandboxNavigation,
        ),
        mixed_content_blocks: bump(m.mixed_content_blocks, o is MixedContent),
        secure_context_blocks: bump(m.secure_context_blocks, o is SecureContext),
    }
}

/// Counters after evaluating a request.
pub open spec fn metrics_after(m: SecurityMetrics, ctx: SecurityContext, req: RequestView) -> SecurityMetrics {
    metrics_step(m, request_outcome(ctx, req), request_same_origin(ctx, req), cors_checked(ctx, req))
}

/// Every decision is counted once by kind and once by origin relation.
pub open spec fn metrics_balanced(m: SecurityMetrics) -> bool {
    &&& m.decisions == m.allowed + m.allowed_opaque + m.allowed_with_warnings + m.blocked
    &&& m.decisions == m.same_origin_requests + m.cross_origin_requests
    &&& m.csp_blocks + m.sandbox_blocks + m.mixed_content_blocks + m.secure_context_blocks <= m.blocked
}

/// No counter is saturated.
pub open spec fn metrics_below_max(m: SecurityMetrics) -> bool {
    &&& m.decisions < u64::MAX
    &&& m.allowed < u64::MAX
    &&& m.allowed_opaque < u64::MAX
    &&& m.allowed_with_warnings < u64::MAX
    &&& m.blocked < u64::MAX
    &&& m.same_origin_requests < u64::MAX
    &&& m.cross_origin_requests < u64::MAX
    &&& m.csp_blocks < u64::MAX
    &&& m.sandbox_blocks < u64::MAX
    &&& m.mixed_content_blocks < u64::MAX
    &&& m.secure_context_blocks < u64::MAX
}

/// Evaluating a request keeps the counters balanced: the decision count is
/// the sum of the allowed, opaque, warned and blocked counts, and the sum of
/// the same- and cross-origin counts (while no counter has saturated).
pub proof fn lemma_metrics_balanced(m: SecurityMetrics, ctx: SecurityContext, req: RequestView)
    requires
        metrics_balanced(m),
        metrics_below_max(m),
    ensures
        metrics_balanced(metrics_after(m, ctx, req)),
{
}

/// A refused request carries exactly one violation; an allowed one none.
pub proof fn lemma_blocked_iff_violation(ctx: SecurityContext, req: RequestView)
    ensures
        expected_decision(ctx, req).kind == SecurityDecisionKind::Blocked ==> expected_decision(
            ctx,
            req,
        ).violations.len() == 1,
        expected_decision(ctx, req).kind != SecurityDecisionKind::Blocked ==> expected_decision(
            ctx,
            req,
        ).violations.len() == 0,
        expected_decision(ctx, req).kind == SecurityDecisionKind::Blocked ==> !expected_decision(
            ctx,
            req,
        ).credentials_allowed,
{
}

/// A same-origin request is never made opaque, never CORS-checked, and is
/// refused only by a gate before CSP or by CSP itself.
pub proof fn lemma_same_origin_not_cors(ctx: SecurityContext, req: RequestView)
    requires
        request_same_origin(ctx, req),
    ensures
        !cors_checked(ctx, req),
        !(request_outcome(ctx, req) is Opaque),
        !(request_outcome(ctx, req) is CorsRefused),
        !(request_outcome(ctx, req) is SameOriginMode),
        !(request_outcome(ctx, req) is CredentialsRefused),
{
}

/// A context without CSP directives never refuses or warns on CSP grounds.
pub proof fn lemma_empty_csp_allows(ctx: SecurityContext, req: RequestView)
    requires
        ctx.csp.directive_map().dom().len() == 0,
    ensures
        request_csp(ctx, req) is Allowed,
{
}

/// A request is refused as mixed content exactly when its URL is a valid
/// network URL, the sandbox lets it through, it goes from an HTTPS document to
/// an HTTP target, and the policy refuses it: `BlockAll` refuses every such
/// load, `AllowPassive` every one but images and media, `AllowAll` none.
/// Only then does the decision carry a mixed-content violation and the
/// mixed-content counter move.
pub proof fn lemma_mixed_content_rule(m: SecurityMetrics, ctx: SecurityContext, req: RequestView)
    ensures
        (request_outcome(ctx, req) == SecurityOutcome::MixedContent) <==> {
            &&& is_network_tuple_spec(origin_from_url(req.url))
            &&& sandbox_outcome(ctx.sandbox, req) is None
            &&& crate::text::starts_with(lower(ctx.document_url@), "https://"@)
            &&& crate::text::starts_with(lower(req.url), "http://"@)
            &&& (ctx.mixed_content == MixedContentPolicy::BlockAll || (ctx.mixed_content
                == MixedContentPolicy::AllowPassive && req.destination != RequestDestination::Image
                && req.destination != RequestDestination::Media))
        },
        (request_outcome(ctx, req) == SecurityOutcome::MixedContent) <==> (exists|k: int|
            0 <= k < expected_decision(ctx, req).violations.len() && (#[trigger] expected_decision(
                ctx,
                req,
            ).violations[k]).kind == SecurityViolationKind::MixedContent),
        request_outcome(ctx, req) != SecurityOutcome::MixedContent ==> metrics_after(
            m,
            ctx,
            req,
        ).mixed_content_blocks == m.mixed_content_blocks,
        request_outcome(ctx, req) == SecurityOutcome::MixedContent && m.mixed_content_blocks < u64::MAX
            ==> metrics_after(m, ctx, req).mixed_content_blocks == m.mixed_content_blocks + 1,
{
    let o = request_outcome(ctx, req);
    let d = expected_decision(ctx, req);
    if o == SecurityOutcome::MixedContent {
        assert(d.violations[0].kind == SecurityViolationKind::MixedContent);
    }
}

/// Passive mixed content is let through: under `AllowPassive`, an image or
/// media load is never refused as mixed content, whatever its URL, and leaves
/// the mixed-content counter as it was.
pub proof fn lemma_passive_mixed_content_allowed(m: SecurityMetrics, ctx: SecurityContext, req: RequestView)
    requires
        ctx.mixed_content == MixedContentPolicy::AllowPassive,
        req.destination == RequestDestination::Image || req.destination == RequestDestination::Media,
    ensures
        request_outcome(ctx, req) != SecurityOutcome::MixedContent,
        forall|k: int|
            0 <= k < expected_decision(ctx, req).violations.len() ==> (#[trigger] expected_decision(
                ctx,
                req,
            ).violations[k]).kind != SecurityViolationKind::MixedContent,
        metrics_after(m, ctx, req).mixed_content_blocks == m.mixed_content_blocks,
{
    lemma_mixed_content_rule(m, ctx, req);
}

// ---------------------------------------------------------------------------
// Enforcer
// ---------------------------------------------------------------------------

enum RequestOutcome {
    InvalidUrl,
    SandboxScript,
    SandboxServiceWorker,
    SandboxNavigation,
    MixedContent,
    SecureContext,
    CspReportOnly(String),
    CspBlocked(String),
    SameOriginMode,
    Opaque,
    CorsRefused,
    CredentialsRefused,
    Allowed,
}

impl View for RequestOutcome {
    type V = SecurityOutcome;

    closed spec fn view(&self) -> SecurityOutcome {
        match self {
            RequestOutcome::InvalidUrl => SecurityOutcome::InvalidUrl,
            RequestOutcome::SandboxScript => SecurityOutcome::SandboxScript,
            RequestOutcome::SandboxServiceWorker => SecurityOutcome::SandboxServiceWorker,
            RequestOutcome::SandboxNavigation => SecurityOutcome::SandboxNavigation,
            RequestOutcome::MixedContent => SecurityOutcome::MixedContent,
            RequestOutcome::SecureContext => SecurityOutcome::SecureContext,
            RequestOutcome::CspReportOnly(d) => SecurityOutcome::CspReportOnly(d@),
            RequestOutcome::CspBlocked(d) => SecurityOutcome::CspBlocked(d@),
            RequestOutcome::SameOriginMode => SecurityOutcome::SameOriginMode,
            RequestOutcome::Opaque => SecurityOutcome::Opaque,
            RequestOutcome::CorsRefused => SecurityOutcome::CorsRefused,
            RequestOutcome::CredentialsRefused => SecurityOutcome::CredentialsRefused,
            RequestOutcome::Allowed => SecurityOutcome::Allowed,
        }
    }
}

fn sandbox_block(sandbox: &SandboxPolicy, request: &SecurityRequest) -> (r: Option<RequestOutcome>)
    ensures
        match r {
            Some(o) => sandbox_outcome(*sandbox, request@) == Some(o@),
            None => sandbox_outcome(*sandbox, request@) is None,
        },
{
    if request.destination == RequestDestination::Script && !sandbox.allow_scripts {
        return Some(RequestOutcome::SandboxScript);
    }
    if request.destination == RequestDestination::ServiceWorker && !sandbox.allow_scripts {
        return Some(RequestOutcome::SandboxServiceWorker);
    }
    if request.destination == RequestDestination::Document && request.mode == RequestMode::Navigate
        && !sandbox.allow_top_navigation {
        return Some(RequestOutcome::SandboxNavigation);
    }
    None
}

fn is_mixed_content_blocked(context: &SecurityContext, request: &SecurityRequest) -> (r: bool)
    ensures
        r == mixed_content_blocked_spec(*context, request@),
{
    if !is_downgrade(context.document_url.as_str(), request.url.as_str()) {
        return false;
    }
    match context.mixed_content {
        MixedContentPolicy::AllowAll => false,
        MixedContentPolicy::AllowPassive => !(request.destination == RequestDestination::Image
            || request.destination == RequestDestination::Media),
        MixedContentPolicy::BlockAll => true,
    }
}

fn nonce_str(nonce: &Option<String>) -> (r: Option<&str>)
    ensures
        match r {
            Some(n) => opt_view(*nonce) == Some(n@),
            None => opt_view(*nonce) is None,
        },
{
    match nonce {
        Some(n) => Some(n.as_str()),
        None => None,
    }
}

/// Classifies a request; the flag says whether a CORS-lite check was made.
fn classify(context: &SecurityContext, request: &SecurityRequest, target_origin: &SecurityOrigin, same_origin: bool) -> (r: (
    RequestOutcome,
    bool,
))
    requires
        target_origin@ == origin_from_url(request.url@),
        same_origin == request_same_origin(*context, request@),
    ensures
        r.0@ == request_outcome(*context, request@),
        r.1 == cors_checked(*context, request@),
{
    if !target_origin.is_network_tuple() {
        return (RequestOutcome::InvalidUrl, false);
    }
    match sandbox_block(&context.sandbox, request) {
        Some(o) => {
            return (o, false);
        },
        None => {},
    }
    if is_mixed_content_blocked(context, request) {
        return (RequestOutcome::MixedContent, false);
    }
    if request.destination == RequestDestination::ServiceWorker
        && context.secure_context_required_for_service_worker && !context.is_secure_context() {
        return (RequestOutcome::SecureContext, false);
    }
    let nonce = nonce_str(&request.nonce);
    match context.csp.allows(&context.origin, request.destination, request.url.as_str(), nonce) {
        CspCheckResult::Allowed => {},
        CspCheckResult::ReportOnlyViolation(directive) => {
            return (RequestOutcome::CspReportOnly(directive), false);
        },
        CspCheckResult::Blocked(directive) => {
            return (RequestOutcome::CspBlocked(directive), false);
        },
    }
    if !same_origin {
        match request.mode {
            RequestMode::SameOrigin => {
                return (RequestOutcome::SameOriginMode, false);
            },
            RequestMode::NoCors => {
                return (RequestOutcome::Opaque, false);
            },
            RequestMode::Cors => {
                if !cors_lite_allows(&context.origin, request) {
                    return (RequestOutcome::CorsRefused, true);
                }
            },
            RequestMode::Navigate => {},
        }
    }
    let cors = !same_origin && request.mode == RequestMode::Cors;
    if !same_origin && request.credentials == CredentialsMode::Include && !cors_credentials_allowed(request) {
        (RequestOutcome::CredentialsRefused, cors)
    } else {
        (RequestOutcome::Allowed, cors)
    }
}

fn step_metrics(m: SecurityMetrics, o: &RequestOutcome, same: bool, cors: bool) -> (r: SecurityMetrics)
    ensures
        r == metrics_step(m, o@, same, cors),
{
    let mut r = m;
    r.decisions = r.decisions.saturating_add(1);
    if same {
        r.same_origin_requests = r.same_origin_requests.saturating_add(1);
    } else {
        r.cross_origin_requests = r.cross_origin_requests.saturating_add(1);
    }
    if cors {
        r.cors_preflight_like_checks = r.cors_preflight_like_checks.saturating_add(1);
    }
    match o {
        RequestOutcome::InvalidUrl | RequestOutcome::SameOriginMode | RequestOutcome::CorsRefused => {
            r.blocked = r.blocked.saturating_add(1);
        },
        RequestOutcome::SandboxScript | RequestOutcome::SandboxServiceWorker
        | RequestOutcome::SandboxNavigation => {
            r.blocked = r.blocked.saturating_add(1);
            r.sandbox_blocks = r.sandbox_blocks.saturating_add(1);
        },
        RequestOutcome::MixedContent => {
            r.blocked = r.blocked.saturating_add(1);
            r.mixed_content_blocks = r.mixed_content_blocks.saturating_add(1);
        },
        RequestOutcome::SecureContext => {
            r.blocked = r.blocked.saturating_add(1);
            r.secure_context_blocks = r.secure_context_blocks.saturating_add(1);
        },
        RequestOutcome::CspBlocked(_) => {
            r.blocked = r.blocked.saturating_add(1);
            r.csp_blocks = r.csp_blocks.saturating_add(1);
        },
        RequestOutcome::CspReportOnly(_) | RequestOutcome::CredentialsRefused => {
            r.allowed_with_warnings = r.allowed_with_warnings.saturating_add(1);
        },
        RequestOutcome::Opaque => {
            r.allowed_opaque = r.allowed_opaque.saturating_add(1);
        },
        RequestOutcome::Allowed => {
            r.allowed = r.allowed.saturating_add(1);
        },
    }
    r
}

fn allowed_decision(context: &SecurityContext, request: &SecurityRequest, target_origin: SecurityOrigin, same_origin: bool) -> (d: SecurityDecision)
    ensures
        d@ == (DecisionView {
            kind: SecurityDecisionKind::Allowed,
            request_url: request.url@,
            target_origin: target_origin@,
            same_origin,
            credentials_allowed: credentials_spec(request@, same_origin),
            referrer: referrer_spec(*context, request.url@),
            violations: Seq::empty(),
            warnings: Seq::empty(),
        }),
{
    let credentials_allowed = match request.credentials {
        CredentialsMode::Omit => false,
        CredentialsMode::SameOrigin => same_origin,
        CredentialsMode::Include => same_origin || cors_credentials_allowed(request),
    };
    let d = SecurityDecision {
        kind: SecurityDecisionKind::Allowed,
        request_url: request.url.clone(),
        target_origin,
        same_origin,
        credentials_allowed,
        referrer: context.referrer_for(request.url.as_str()),
        violations: Vec::new(),
        warnings: Vec::new(),
    };
    assert(d@.violations =~= Seq::<ViolationView>::empty());
    assert(d@.warnings =~= Seq::<Seq<char>>::empty());
    d
}

fn build_decision(context: &SecurityContext, request: &SecurityRequest, target_origin: SecurityOrigin, same_origin: bool, o: RequestOutcome) -> (d: SecurityDecision)
    requires
        target_origin@ == origin_from_url(request.url@),
        same_origin == request_same_origin(*context, request@),
        o@ == request_outcome(*context, request@),
    ensures
        d@ == expected_decision(*context, request@),
{
    let url = request.url.as_str();
    match o {
        RequestOutcome::InvalidUrl => SecurityDecision::blocked(
            request.url.clone(),
            target_origin,
            same_origin,
            violation(SecurityViolationKind::InvalidUrl, url, "unsupported or opaque target URL", None),
        ),
        RequestOutcome::SandboxScript => SecurityDecision::blocked(
            request.url.clone(),
            target_origin,
            same_origin,
            violation(SecurityViolationKind::Sandbox, url, "sandbox blocks script execution/loading", None),
        ),
        RequestOutcome::SandboxServiceWorker => SecurityDecision::blocked(
            request.url.clone(),
            target_origin,
            same_origin,
            violation(SecurityViolationKind::Sandbox, url, "sandbox blocks service worker registration", None),
        ),
        RequestOutcome::SandboxNavigation => SecurityDecision::blocked(
            request.url.clone(),
            target_origin,
            same_origin,
            violation(SecurityViolationKind::Sandbox, url, "sandbox blocks top navigation", None),
        ),
        RequestOutcome::MixedContent => SecurityDecision::blocked(
            request.url.clone(),
            target_origin,
            same_origin,
            violation(SecurityViolationKind::MixedContent, url, "blocked mixed content downgrade", None),
        ),
        RequestOutcome::SecureContext => SecurityDecision::blocked(
            request.url.clone(),
            target_origin,
            same_origin,
            violation(SecurityViolationKind::SecureContext, url, "service workers require a secure context", None),
        ),
        RequestOutcome::CspBlocked(directive) => SecurityDecision::blocked(
            request.url.clone(),
            target_origin,
            same_origin,
            violation(SecurityViolationKind::Csp, url, "blocked by CSP-lite", Some(directive)),
        ),
        RequestOutcome::SameOriginMode => SecurityDecision::blocked(
            request.url.clone(),
            target_origin,
            same_origin,
            violation(
                SecurityViolationKind::SameOrigin,
                url,
                "same-origin request targeted a different origin",
                None,
            ),
        ),
        RequestOutcome::CorsRefused => SecurityDecision::blocked(
            request.url.clone(),
            target_origin,
            same_origin,
            violation(
                SecurityViolationKind::Cors,
                url,
                "CORS-lite response headers did not allow this origin",
                None,
            ),
        ),
        RequestOutcome::CspReportOnly(directive) => {
            let mut d = allowed_decision(context, request, target_origin, same_origin);
            d.kind = SecurityDecisionKind::AllowedWithWarnings;
            d.warnings.push(crate::text::concat("CSP report-only violation: ", directive.as_str()));
            assert(d@.warnings =~= outcome_warnings(o@));
            d
        },
        RequestOutcome::CredentialsRefused => {
            let mut d = allowed_decision(context, request, target_origin, same_origin);
            d.kind = SecurityDecisionKind::AllowedWithWarnings;
            d.credentials_allowed = false;
            d.warnings.push(owned("credentials requested but Access-Control-Allow-Credentials was not true"));
            assert(d@.warnings =~= outcome_warnings(o@));
            d
        },
        RequestOutcome::Opaque => {
            let mut d = allowed_decision(context, request, target_origin, same_origin);
            d.kind = SecurityDecisionKind::AllowedOpaque;
            d
        },
        RequestOutcome::Allowed => allowed_decision(context, request, target_origin, same_origin),
    }
}

fn copy_violation(v: &SecurityViolation) -> (r: SecurityViolation)
    ensures
        r@ == v@,
{
    let directive = match &v.directive {
        Some(d) => Some(d.clone()),
        None => None,
    };
    let kind = match v.kind {
        SecurityViolationKind::InvalidUrl => SecurityViolationKind::InvalidUrl,
        SecurityViolationKind::SameOrigin => SecurityViolationKind::SameOrigin,
        SecurityViolationKind::Cors => SecurityViolationKind::Cors,
        SecurityViolationKind::Csp => SecurityViolationKind::Csp,
        SecurityViolationKind::Sandbox => SecurityViolationKind::Sandbox,
        SecurityViolationKind::MixedContent => SecurityViolationKind::MixedContent,
        SecurityViolationKind::SecureContext => SecurityViolationKind::SecureContext,
        SecurityViolationKind::Method => SecurityViolationKind::Method,
    };
    SecurityViolation { kind, url: v.url.clone(), message: v.message.clone(), directive }
}

/// The script request made for a service worker registration.
pub open spec fn service_worker_script_request(script_url: Seq<char>) -> RequestView {
    RequestView {
        mode: RequestMode::SameOrigin,
        credentials: CredentialsMode::SameOrigin,
        ..default_request(script_url, RequestDestination::ServiceWorker)
    }
}

/// Decision for a service worker registration: the script request's decision,
/// unless it is allowed and the scope lies in another origin.
pub open spec fn registration_decision(ctx: SecurityContext, script_url: Seq<char>, scope_url: Seq<char>) -> DecisionView {
    let first = expected_decision(ctx, service_worker_script_request(script_url));
    let scope_origin = origin_from_url(scope_url);
    if first.kind == SecurityDecisionKind::Blocked {
        first
    } else if scope_origin != ctx.origin@ {
        blocked_view(
            scope_url,
            scope_origin,
            false,
            ViolationView {
                kind: SecurityViolationKind::SameOrigin,
                url: scope_url,
                message: "service worker scope must be same-origin"@,
                directive: None,
            },
        )
    } else {
        first
    }
}

/// A service worker whose scope lies outside the document's origin is never registered.
pub proof fn lemma_foreign_scope_refused(ctx: SecurityContext, script_url: Seq<char>, scope_url: Seq<char>)
    requires
        origin_from_url(scope_url) != ctx.origin@,
    ensures
        registration_decision(ctx, script_url, scope_url).kind == SecurityDecisionKind::Blocked,
{
}

/// Stateful security enforcer with counters and a violation log.
#[derive(Debug, Clone)]
pub struct SecurityEnforcer {
    context: SecurityContext,
    metrics: SecurityMetrics,
    violations: Vec<SecurityViolation>,
}

impl SecurityEnforcer {
    /// The context decisions are made in.
    pub closed spec fn current_context(self) -> SecurityContext {
        self.context
    }

    /// The counters.
    pub closed spec fn counters(self) -> SecurityMetrics {
        self.metrics
    }

    /// Every violation recorded so far, oldest first.
    pub closed spec fn log(self) -> Seq<ViolationView> {
        violation_views(self.violations@)
    }

    /// Creates an enforcer with zero counters and an empty log.
    pub fn new(context: SecurityContext) -> (e: Self)
        ensures
            e.current_context() == context,
            e.counters() == zero_metrics(),
            e.log() == Seq::<ViolationView>::empty(),
    {
        let e = Self { context, metrics: SecurityMetrics::default(), violations: Vec::new() };
        assert(e.log() =~= Seq::<ViolationView>::empty());
        e
    }

    /// Returns the context.
    pub fn context(&self) -> (r: &SecurityContext)
        ensures
            *r == self.current_context(),
    {
        &self.context
    }

    /// Evaluates a request: decides it, counts it, and logs its violations.
    pub fn evaluate_request(&mut self, request: &SecurityRequest) -> (d: SecurityDecision)
        ensures
            d@ == expected_decision(old(self).current_context(), request@),
            final(self).current_context() == old(self).current_context(),
            final(self).counters() == metrics_after(old(self).counters(), old(self).current_context(), request@),
            final(self).log() == old(self).log() + d@.violations,
    {
        let target_origin = SecurityOrigin::parse(request.url.as_str());
        let same_origin = self.context.origin.same_origin(&target_origin);
        let (outcome, cors) = classify(&self.context, request, &target_origin, same_origin);
        self.metrics = step_metrics(self.metrics, &outcome, same_origin, cors);
        let d = build_decision(&self.context, request, target_origin, same_origin, outcome);
        self.record_decision(&d);
        d
    }

    fn record_decision(&mut self, decision: &SecurityDecision)
        ensures
            final(self).current_context() == old(self).current_context(),
            final(self).counters() == old(self).counters(),
            final(self).log() == old(self).log() + decision@.violations,
    {
        let ghost n0 = self.violations@.len();
        let mut i: usize = 0;
        while i < decision.violations.len()
            invariant
                i <= decision.violations@.len(),
                self.context == old(self).context,
                self.metrics == old(self).metrics,
                self.violations@.len() == n0 + i,
                n0 == old(self).violations@.len(),
                forall|k: int| 0 <= k < n0 ==> (#[trigger] self.violations@[k])@ == old(self).violations@[k]@,
                forall|k: int| 0 <= k < i ==> (#[trigger] self.violations@[n0 + k])@ == decision.violations@[k]@,
            decreases decision.violations.len() - i,
        {
            let v = copy_violation(&decision.violations[i]);
            self.violations.push(v);
            i = i + 1;
        }
        assert(self.log() =~= old(self).log() + decision@.violations) by {
            assert forall|k: int| 0 <= k < self.violations@.len() implies (#[trigger] self.log()[k]) == (old(
                self,
            ).log() + decision@.violations)[k] by {
                if k >= n0 {
                    assert(self.violations@[n0 + (k - n0)] == self.violations@[k]);
                }
            }
        }
    }

    /// Evaluates a service worker registration: the script request (same-origin
    /// mode and credentials), then the scope's origin.
    pub fn evaluate_service_worker_registration(&mut self, script_url: &str, scope_url: &str) -> (d: SecurityDecision)
        ensures
            d@ == registration_decision(old(self).current_context(), script_url@, scope_url@),
            final(self).current_context() == old(self).current_context(),
            final(self).counters() == metrics_after(
                old(self).counters(),
                old(self).current_context(),
                service_worker_script_request(script_url@),
            ),
            final(self).log() == old(self).log() + expected_decision(
                old(self).current_context(),
                service_worker_script_request(script_url@),
            ).violations,
    {
        let script = SecurityRequest::new(script_url, RequestDestination::ServiceWorker).mode(
            RequestMode::SameOrigin,
        ).credentials(CredentialsMode::SameOrigin);
        assert(script@ == service_worker_script_request(script_url@));
        let decision = self.evaluate_request(&script);
        if !decision.is_allowed() {
            return decision;
        }
        let scope_origin = SecurityOrigin::parse(scope_url);
        if !scope_origin.same_origin(&self.context.origin) {
            return SecurityDecision::blocked(
                owned(scope_url),
                scope_origin,
                false,
                violation(
                    SecurityViolationKind::SameOrigin,
                    scope_url,
                    "service worker scope must be same-origin",
                    None,
                ),
            );
        }
        decision
    }

    /// Returns a snapshot of the counters.
    pub fn metrics(&self) -> (m: SecurityMetrics)
        ensures
            m == self.counters(),
    {
        self.metrics
    }

    /// Returns the violation log.
    pub fn violations(&self) -> (v: Vec<SecurityViolation>)
        ensures
            violation_views(v@) == self.log(),
    {
        let mut out: Vec<SecurityViolation> = Vec::new();
        let mut i: usize = 0;
        while i < self.violations.len()
            invariant
                i <= self.violations@.len(),
                out@.len() == i,
                forall|k: int| 0 <= k < i ==> (#[trigger] out@[k])@ == self.violations@[k]@,
            decreases self.violations.len() - i,
        {
            out.push(copy_violation(&self.violations[i]));
            i = i + 1;
        }
        assert(violation_views(out@) =~= violation_views(self.violations@));
        out
    }
}

} // verus!
