//! HTTP request/response semantics, MIME sniffing, redirect policy, and
//! Cache-Control parsing.
//!
//! This module is protocol logic, not a network client. It is deterministic so
//! that the Fetch API, the Service Worker simulation and the compatibility
//! harness all agree on headers, cacheability, MIME type, redirect mode, and
//! response classification.

use crate::keyed::{
    keys_sorted, lemma_table_empty, lemma_table_entry, table_find, table_insert, table_map,
};
use crate::text::{
    append_str, chars_of, contains, decimal, decimal_string, ends_with, ends_with_exec, is_lit,
    lower, lower_chars, owned, parse_u64, parse_u64_chars, split, split_exec, split_once,
    split_once_exec, starts_with, starts_with_exec, str_contains, string_from, strip, strip_chars,
    trim, trim_chars,
};
use vstd::prelude::*;

verus! {

// ---------------------------------------------------------------------------
// Header lists
// ---------------------------------------------------------------------------

/// Header-name token characters after lower-casing (RFC 9110 `tchar`).
pub open spec fn is_header_name_char(c: char) -> bool {
    ||| ('a' <= c && c <= 'z')
    ||| ('0' <= c && c <= '9')
    ||| c == '!' || c == '#' || c == '$' || c == '%' || c == '&' || c == '\''
    ||| c == '*' || c == '+' || c == '-' || c == '.' || c == '^' || c == '_'
    ||| c == '`' || c == '|' || c == '~'
}

/// Normalized header name: trimmed and lower-cased, or empty when invalid.
pub open spec fn normalize_header_name(name: Seq<char>) -> Seq<char> {
    let t = lower(trim(name));
    if t.len() == 0 || exists|i: int| 0 <= i < t.len() && !is_header_name_char(#[trigger] t[i]) {
        Seq::empty()
    } else {
        t
    }
}

/// `s` without NUL, CR and LF characters.
pub open spec fn drop_line_breaks(s: Seq<char>) -> Seq<char>
    decreases s.len(),
{
    if s.len() == 0 {
        s
    } else {
        let rest = drop_line_breaks(s.drop_last());
        let c = s.last();
        if c == '\0' || c == '\r' || c == '\n' {
            rest
        } else {
            rest.push(c)
        }
    }
}

/// Normalized header value: line breaks and NULs removed, then trimmed.
pub open spec fn normalize_header_value(value: Seq<char>) -> Seq<char> {
    trim(drop_line_breaks(value))
}

/// Saturating addition on `usize`.
pub open spec fn sat_add(a: usize, b: usize) -> usize {
    if a + b > usize::MAX { usize::MAX } else { (a + b) as usize }
}

/// A normalized, insertion-safe HTTP header list with case-insensitive names,
/// kept in increasing name order.
#[derive(Debug, PartialEq, Eq)]
pub struct HttpHeaderList {
    inner: Vec<(String, String)>,
}

impl HttpHeaderList {
    #[verifier::type_invariant]
    closed spec fn sorted_inv(self) -> bool {
        keys_sorted(self.inner@)
    }

    /// The headers in increasing name order, as `(name, value)` pairs.
    pub closed spec fn entries(self) -> Seq<(Seq<char>, Seq<char>)> {
        self.inner@.map_values(|p: (String, String)| (p.0@, p.1@))
    }

    /// The headers as a map from normalized name to value.
    pub closed spec fn header_map(self) -> Map<Seq<char>, Seq<char>> {
        table_map(self.inner@).map_values(|v: String| v@)
    }

    /// Serialized-ish byte weight of the first `n` entries.
    pub closed spec fn byte_weight(self, n: int) -> usize
        decreases n,
    {
        if n <= 0 || n > self.inner@.len() {
            0
        } else {
            let e = self.inner@[n - 1];
            sat_add(
                self.byte_weight(n - 1),
                sat_add(
                    sat_add(
                        vstd::utf8::encode_utf8(e.0@).len() as usize,
                        vstd::utf8::encode_utf8(e.1@).len() as usize,
                    ),
                    4,
                ),
            )
        }
    }

    /// Byte weight of all entries.
    pub closed spec fn total_byte_weight(self) -> usize {
        self.byte_weight(self.inner@.len() as int)
    }

    /// Creates an empty header list.
    pub fn new() -> (h: Self)
        ensures
            h.header_map() == Map::<Seq<char>, Seq<char>>::empty(),
            h.entries().len() == 0,
    {
        let inner: Vec<(String, String)> = Vec::new();
        proof {
            lemma_table_empty(inner@);
        }
        let h = Self { inner };
        proof {
            assert(h.header_map() =~= Map::<Seq<char>, Seq<char>>::empty());
        }
        h
    }

    /// Builds headers from string pairs, inserting them in order.
    pub fn from_pairs(pairs: &[(&str, &str)]) -> (h: Self)
        ensures
            h.header_map() == pairs_map(pairs@, pairs@.len() as int),
    {
        let mut h = Self::new();
        let mut i: usize = 0;
        assert(h.header_map() =~= pairs_map(pairs@, 0));
        while i < pairs.len()
            invariant
                i <= pairs@.len(),
                h.header_map() == pairs_map(pairs@, i as int),
            decreases pairs.len() - i,
        {
            let (name, value) = pairs[i];
            h.insert(name, value);
            i = i + 1;
        }
        h
    }

    /// Inserts or replaces one header. Invalid or empty names are ignored.
    pub fn insert(&mut self, name: &str, value: &str)
        ensures
            final(self).header_map() == (if normalize_header_name(name@).len() == 0 {
                old(self).header_map()
            } else {
                old(self).header_map().insert(
                    normalize_header_name(name@),
                    normalize_header_value(value@),
                )
            }),
    {
        let n = normalize_name_exec(name);
        if n.as_str().is_empty() {
            return;
        }
        let v = normalize_value_exec(value);
        self.insert_normalized(n, v);
    }

    fn insert_normalized(&mut self, n: String, v: String)
        ensures
            final(self).header_map() == old(self).header_map().insert(n@, v@),
    {
        proof {
            use_type_invariant(&*self);
        }
        let ghost old_inner = self.inner@;
        let mut inner: Vec<(String, String)> = Vec::new();
        std::mem::swap(&mut inner, &mut self.inner);
        table_insert(&mut inner, n, v);
        self.inner = inner;
        proof {
            assert(self.header_map() =~= table_map(old_inner).map_values(|x: String| x@).insert(
                n@,
                v@,
            ));
        }
    }

    /// Appends a value to an existing comma-separated header, or inserts it.
    pub fn append(&mut self, name: &str, value: &str)
        ensures
            final(self).header_map() == (if normalize_header_name(name@).len() == 0 {
                old(self).header_map()
            } else {
                old(self).header_map().insert(
                    normalize_header_name(name@),
                    appended_value(
                        old(self).header_map(),
                        normalize_header_name(name@),
                        normalize_header_value(value@),
                    ),
                )
            }),
    {
        proof {
            use_type_invariant(&*self);
        }
        let n = normalize_name_exec(name);
        if n.as_str().is_empty() {
            return;
        }
        let v = normalize_value_exec(value);
        let nv = chars_of(n.as_str());
        let merged = match table_find(&self.inner, nv.as_slice()) {
            Ok(i) => {
                proof {
                    lemma_table_entry(self.inner@, i as int);
                }
                let mut existing = self.inner[i].1.clone();
                if !existing.as_str().is_empty() {
                    append_str(&mut existing, ", ");
                }
                append_str(&mut existing, v.as_str());
                existing
            },
            Err(_) => v,
        };
        self.insert_normalized(n, merged);
    }

    /// Gets a header value by case-insensitive name.
    pub fn get(&self, name: &str) -> (r: Option<&str>)
        ensures
            match r {
                Some(v) => self.header_map().dom().contains(normalize_header_name(name@))
                    && v@ == self.header_map()[normalize_header_name(name@)],
                None => !self.header_map().dom().contains(normalize_header_name(name@)),
            },
    {
        proof {
            use_type_invariant(self);
        }
        let n = normalize_name_exec(name);
        let nv = chars_of(n.as_str());
        match table_find(&self.inner, nv.as_slice()) {
            Ok(i) => {
                proof {
                    lemma_table_entry(self.inner@, i as int);
                }
                Some(self.inner[i].1.as_str())
            },
            Err(_) => None,
        }
    }

    /// Returns whether the header exists.
    pub fn contains(&self, name: &str) -> (r: bool)
        ensures
            r == self.header_map().dom().contains(normalize_header_name(name@)),
    {
        self.get(name).is_some()
    }

    /// Returns whether a comma-separated header contains a token (ASCII
    /// case-insensitively, ignoring whitespace around each item).
    pub fn contains_token(&self, name: &str, token: &str) -> (r: bool)
        ensures
            r == (self.header_map().dom().contains(normalize_header_name(name@)) && list_has_token(
                split(self.header_map()[normalize_header_name(name@)], ','),
                lower(trim(token@)),
            )),
    {
        let tv = chars_of(token);
        let tt = trim_chars(tv.as_slice());
        let wanted = lower_chars(tt.as_slice());
        match self.get(name) {
            Some(value) => {
                let vv = chars_of(value);
                let parts = split_exec(vv.as_slice(), ',');
                let mut i: usize = 0;
                while i < parts.len()
                    invariant
                        i <= parts@.len(),
                        parts@.len() == split(vv@, ',').len(),
                        forall|k: int| 0 <= k < parts@.len() ==> #[trigger] parts@[k]@ == split(vv@, ',')[k],
                        wanted@ == lower(trim(token@)),
                        vv@ == self.header_map()[normalize_header_name(name@)],
                        self.header_map().dom().contains(normalize_header_name(name@)),
                        !list_has_token(split(vv@, ',').take(i as int), wanted@),
                    decreases parts.len() - i,
                {
                    let pt = trim_chars(parts[i].as_slice());
                    let pl = lower_chars(pt.as_slice());
                    if crate::text::chars_eq(pl.as_slice(), wanted.as_slice()) {
                        proof {
                            lemma_list_has_token_at(split(vv@, ','), wanted@, i as int);
                        }
                        return true;
                    }
                    proof {
                        lemma_list_has_token_take(split(vv@, ','), wanted@, i as int);
                    }
                    i = i + 1;
                }
                assert(split(vv@, ',').take(parts.len() as int) =~= split(vv@, ','));
                false
            },
            None => false,
        }
    }

    /// The stored headers in increasing name order.
    pub fn iter(&self) -> (r: &[(String, String)])
        ensures
            r@.map_values(|p: (String, String)| (p.0@, p.1@)) == self.entries(),
    {
        self.inner.as_slice()
    }

    /// Returns cloned `(name, value)` pairs in increasing name order.
    pub fn to_pairs(&self) -> (r: Vec<(String, String)>)
        ensures
            r@.map_values(|p: (String, String)| (p.0@, p.1@)) == self.entries(),
    {
        let mut r: Vec<(String, String)> = Vec::new();
        let mut i: usize = 0;
        while i < self.inner.len()
            invariant
                i <= self.inner@.len(),
                r@.len() == i,
                forall|k: int| 0 <= k < i ==> (#[trigger] r@[k]).0@ == self.inner@[k].0@ && r@[k].1@
                    == self.inner@[k].1@,
            decreases self.inner.len() - i,
        {
            let name = self.inner[i].0.clone();
            let value = self.inner[i].1.clone();
            r.push((name, value));
            i = i + 1;
        }
        assert(r@.map_values(|p: (String, String)| (p.0@, p.1@)) =~= self.entries());
        r
    }

    /// Returns true when no headers are present.
    pub fn is_empty(&self) -> (r: bool)
        ensures
            r == (self.header_map().dom().len() == 0),
    {
        proof {
            use_type_invariant(self);
            lemma_header_map_finite_len(self.inner@);
        }
        self.inner.len() == 0
    }

    /// Total byte weight: for each header, name bytes plus value bytes plus four, saturating.
    pub fn byte_len(&self) -> (n: usize)
        ensures
            n == self.total_byte_weight(),
    {
        let mut total: usize = 0;
        let mut i: usize = 0;
        while i < self.inner.len()
            invariant
                i <= self.inner@.len(),
                total == self.byte_weight(i as int),
            decreases self.inner.len() - i,
        {
            let a = self.inner[i].0.as_str().len();
            let b = self.inner[i].1.as_str().len();
            let ab = a.saturating_add(b);
            let e = ab.saturating_add(4);
            total = total.saturating_add(e);
            i = i + 1;
        }
        total
    }
}

impl Clone for HttpHeaderList {
    fn clone(&self) -> (h: Self)
        ensures
            h.entries() == self.entries(),
            h.header_map() == self.header_map(),
    {
        proof {
            use_type_invariant(self);
        }
        let mut inner: Vec<(String, String)> = Vec::new();
        let mut i: usize = 0;
        while i < self.inner.len()
            invariant
                i <= self.inner@.len(),
                inner@.len() == i,
                forall|k: int| 0 <= k < i ==> #[trigger] inner@[k] == self.inner@[k],
            decreases self.inner.len() - i,
        {
            let name = self.inner[i].0.clone();
            let value = self.inner[i].1.clone();
            inner.push((name, value));
            i = i + 1;
        }
        assert(inner@ =~= self.inner@);
        Self { inner }
    }
}

impl Default for HttpHeaderList {
    fn default() -> (h: Self)
        ensures
            h.header_map() == Map::<Seq<char>, Seq<char>>::empty(),
    {
        Self::new()
    }
}

/// Header map after inserting the first `n` pairs.
pub open spec fn pairs_map(pairs: Seq<(&str, &str)>, n: int) -> Map<Seq<char>, Seq<char>>
    decreases n,
{
    if n <= 0 || n > pairs.len() {
        Map::empty()
    } else {
        let prev = pairs_map(pairs, n - 1);
        let name = normalize_header_name(pairs[n - 1].0@);
        if name.len() == 0 {
            prev
        } else {
            prev.insert(name, normalize_header_value(pairs[n - 1].1@))
        }
    }
}

/// The value `append` stores for `name`.
pub open spec fn appended_value(m: Map<Seq<char>, Seq<char>>, name: Seq<char>, value: Seq<char>) -> Seq<char> {
    if m.dom().contains(name) {
        if m[name].len() > 0 {
            m[name] + ", "@ + value
        } else {
            m[name] + value
        }
    } else {
        value
    }
}

/// Some item of the list, trimmed and lower-cased, equals `token`.
pub open spec fn list_has_token(parts: Seq<Seq<char>>, token: Seq<char>) -> bool {
    exists|i: int| 0 <= i < parts.len() && lower(trim(#[trigger] parts[i])) == token
}

proof fn lemma_list_has_token_at(parts: Seq<Seq<char>>, token: Seq<char>, i: int)
    requires
        0 <= i < parts.len(),
        lower(trim(parts[i])) == token,
    ensures
        list_has_token(parts, token),
{
}

proof fn lemma_list_has_token_take(parts: Seq<Seq<char>>, token: Seq<char>, i: int)
    requires
        0 <= i < parts.len(),
        !list_has_token(parts.take(i), token),
        lower(trim(parts[i])) != token,
    ensures
        !list_has_token(parts.take(i + 1), token),
{
    if list_has_token(parts.take(i + 1), token) {
        let k = choose|k: int| 0 <= k < i + 1 && lower(trim(#[trigger] parts.take(i + 1)[k])) == token;
        if k < i {
            assert(parts.take(i)[k] == parts[k]);
        }
    }
}

proof fn lemma_header_map_finite_len(s: Seq<(String, String)>)
    requires
        keys_sorted(s),
    ensures
        (s.len() == 0) == (table_map(s).map_values(|v: String| v@).dom().len() == 0),
{
    let m = table_map(s).map_values(|v: String| v@);
    if s.len() == 0 {
        lemma_table_empty(s);
        assert(m.dom() =~= Set::<Seq<char>>::empty());
    } else {
        lemma_table_entry(s, 0);
        assert(m.dom().contains(s[0].0@));
        assert(m.dom().finite()) by {
            lemma_table_dom_finite(s);
        }
        vstd::set::axiom_set_contains_len(m.dom(), s[0].0@);
    }
}

proof fn lemma_table_dom_finite(s: Seq<(String, String)>)
    ensures
        table_map(s).map_values(|v: String| v@).dom().finite(),
{
    let keys = Seq::new(s.len(), |i: int| s[i].0@);
    let d = table_map(s).map_values(|v: String| v@).dom();
    assert(d =~= keys.to_set()) by {
        assert forall|k: Seq<char>| d.contains(k) implies keys.to_set().contains(k) by {
            let i = crate::keyed::key_pos(s, k);
            assert(keys[i] == k);
        }
        assert forall|k: Seq<char>| keys.to_set().contains(k) implies d.contains(k) by {
            let i = choose|i: int| 0 <= i < keys.len() && keys[i] == k;
            assert(s[i].0@ == k);
        }
    }
    vstd::seq_lib::seq_to_set_is_finite(keys);
}

fn normalize_name_exec(name: &str) -> (r: String)
    ensures
        r@ == normalize_header_name(name@),
{
    let v = chars_of(name);
    let t = trim_chars(v.as_slice());
    let l = lower_chars(t.as_slice());
    if l.len() == 0 {
        return String::new();
    }
    let mut i: usize = 0;
    while i < l.len()
        invariant
            i <= l@.len(),
            l@ == lower(trim(name@)),
            forall|k: int| 0 <= k < i ==> is_header_name_char(#[trigger] l@[k]),
        decreases l.len() - i,
    {
        if !is_header_name_char_exec(l[i]) {
            return String::new();
        }
        i = i + 1;
    }
    string_from(l.as_slice())
}

fn is_header_name_char_exec(c: char) -> (r: bool)
    ensures
        r == is_header_name_char(c),
{
    ('a' <= c && c <= 'z') || ('0' <= c && c <= '9') || c == '!' || c == '#' || c == '$' || c
        == '%' || c == '&' || c == '\'' || c == '*' || c == '+' || c == '-' || c == '.' || c
        == '^' || c == '_' || c == '`' || c == '|' || c == '~'
}

fn normalize_value_exec(value: &str) -> (r: String)
    ensures
        r@ == normalize_header_value(value@),
{
    let v = chars_of(value);
    let mut kept: Vec<char> = Vec::new();
    let mut i: usize = 0;
    while i < v.len()
        invariant
            i <= v@.len(),
            v@ == value@,
            kept@ == drop_line_breaks(v@.take(i as int)),
        decreases v.len() - i,
    {
        let c = v[i];
        assert(v@.take(i + 1).drop_last() =~= v@.take(i as int));
        if !(c == '\0' || c == '\r' || c == '\n') {
            kept.push(c);
        }
        i = i + 1;
    }
    assert(v@.take(v.len() as int) =~= v@);
    let t = trim_chars(kept.as_slice());
    string_from(t.as_slice())
}

// ---------------------------------------------------------------------------
// Methods, modes and destinations
// ---------------------------------------------------------------------------

/// HTTP method supported by the protocol logic.
#[derive(Debug, Clone, Copy, PartialEq, Eq, PartialOrd, Ord, Hash, Structural)]
pub enum HttpMethod {
    Get,
    Head,
    Post,
    Put,
    Patch,
    Delete,
    Options,
}

impl Default for HttpMethod {
    fn default() -> (m: Self)
        ensures
            m == HttpMethod::Get,
    {
        HttpMethod::Get
    }
}

/// Wire text of a method.
pub open spec fn method_name(m: HttpMethod) -> Seq<char> {
    match m {
        HttpMethod::Get => "GET"@,
        HttpMethod::Head => "HEAD"@,
        HttpMethod::Post => "POST"@,
        HttpMethod::Put => "PUT"@,
        HttpMethod::Patch => "PATCH"@,
        HttpMethod::Delete => "DELETE"@,
        HttpMethod::Options => "OPTIONS"@,
    }
}

/// The method named by `s`, after trimming and ASCII upper-casing.
pub open spec fn method_from(s: Seq<char>) -> Option<HttpMethod> {
    let u = crate::text::upper(trim(s));
    if u == "GET"@ {
        Some(HttpMethod::Get)
    } else if u == "HEAD"@ {
        Some(HttpMethod::Head)
    } else if u == "POST"@ {
        Some(HttpMethod::Post)
    } else if u == "PUT"@ {
        Some(HttpMethod::Put)
    } else if u == "PATCH"@ {
        Some(HttpMethod::Patch)
    } else if u == "DELETE"@ {
        Some(HttpMethod::Delete)
    } else if u == "OPTIONS"@ {
        Some(HttpMethod::Options)
    } else {
        None
    }
}

impl HttpMethod {
    /// Parses a method string (ASCII case-insensitive, surrounding whitespace ignored).
    pub fn parse(value: &str) -> (r: Option<Self>)
        ensures
            r == method_from(value@),
    {
        let v = chars_of(value);
        let t = trim_chars(v.as_slice());
        let u = crate::text::upper_chars(t.as_slice());
        let u = u.as_slice();
        if is_lit(u, "GET") {
            Some(Self::Get)
        } else if is_lit(u, "HEAD") {
            Some(Self::Head)
        } else if is_lit(u, "POST") {
            Some(Self::Post)
        } else if is_lit(u, "PUT") {
            Some(Self::Put)
        } else if is_lit(u, "PATCH") {
            Some(Self::Patch)
        } else if is_lit(u, "DELETE") {
            Some(Self::Delete)
        } else if is_lit(u, "OPTIONS") {
            Some(Self::Options)
        } else {
            None
        }
    }

    /// Returns wire text.
    pub fn as_str(self) -> (r: &'static str)
        ensures
            r@ == method_name(self),
    {
        match self {
            Self::Get => "GET",
            Self::Head => "HEAD",
            Self::Post => "POST",
            Self::Put => "PUT",
            Self::Patch => "PATCH",
            Self::Delete => "DELETE",
            Self::Options => "OPTIONS",
        }
    }

    /// Returns whether this method is considered safe (GET, HEAD, OPTIONS).
    pub fn is_safe(self) -> (r: bool)
        ensures
            r == (self == HttpMethod::Get || self == HttpMethod::Head || self == HttpMethod::Options),
    {
        match self {
            Self::Get | Self::Head | Self::Options => true,
            _ => false,
        }
    }

    /// Returns whether a 303 redirect should rewrite this method to GET.
    pub fn rewrite_to_get_on_see_other(self) -> (r: bool)
        ensures
            r == !(self == HttpMethod::Get || self == HttpMethod::Head),
    {
        match self {
            Self::Get | Self::Head => false,
            _ => true,
        }
    }
}

/// Parsing a method's wire text gives the method back.
pub proof fn lemma_method_name_roundtrip(m: HttpMethod)
    ensures
        method_from(method_name(m)) == Some(m),
{
    reveal_strlit("GET");
    reveal_strlit("HEAD");
    reveal_strlit("POST");
    reveal_strlit("PUT");
    reveal_strlit("PATCH");
    reveal_strlit("DELETE");
    reveal_strlit("OPTIONS");
    let n = method_name(m);
    assert(crate::text::trim_start(n) == n);
    assert(crate::text::trim_end(n) == n);
    assert(crate::text::upper(n) =~= n);
}

/// Fetch request mode.
#[derive(Debug, Clone, Copy, PartialEq, Eq, Structural)]
pub enum HttpRequestMode {
    Navigate,
    SameOrigin,
    Cors,
    NoCors,
}

impl Default for HttpRequestMode {
    fn default() -> (m: Self)
        ensures
            m == HttpRequestMode::Cors,
    {
        HttpRequestMode::Cors
    }
}

/// Fetch credentials mode.
#[derive(Debug, Clone, Copy, PartialEq, Eq, Structural)]
pub enum HttpCredentialsMode {
    Omit,
    SameOrigin,
    Include,
}

impl Default for HttpCredentialsMode {
    fn default() -> (m: Self)
        ensures
            m == HttpCredentialsMode::SameOrigin,
    {
        HttpCredentialsMode::SameOrigin
    }
}

/// Fetch cache mode.
#[derive(Debug, Clone, Copy, PartialEq, Eq, Structural)]
pub enum HttpCacheMode {
    Default,
    NoStore,
    Reload,
    NoCache,
    ForceCache,
    OnlyIfCached,
}

impl Default for HttpCacheMode {
    fn default() -> (m: Self)
        ensures
            m == HttpCacheMode::Default,
    {
        HttpCacheMode::Default
    }
}

/// Redirect handling mode.
#[derive(Debug, Clone, Copy, PartialEq, Eq, Structural)]
pub enum HttpRedirectMode {
    Follow,
    Error,
    Manual,
}

impl Default for HttpRedirectMode {
    fn default() -> (m: Self)
        ensures
            m == HttpRedirectMode::Follow,
    {
        HttpRedirectMode::Follow
    }
}

/// Request destination for Accept header and MIME policy decisions.
#[derive(Debug, Clone, Copy, PartialEq, Eq, PartialOrd, Ord, Hash, Structural)]
pub enum HttpDestination {
    Document,
    Style,
    Script,
    Image,
    Font,
    Media,
    Worker,
    Manifest,
    Fetch,
    Xhr,
    Other,
}

/// Default `Accept` header of a destination.
pub open spec fn accept_header_of(d: HttpDestination) -> Seq<char> {
    match d {
        HttpDestination::Document => "text/html,application/xhtml+xml,application/xml;q=0.9,*/*;q=0.8"@,
        HttpDestination::Style => "text/css,*/*;q=0.1"@,
        HttpDestination::Script | HttpDestination::Worker => "text/javascript,application/javascript,application/ecmascript,*/*;q=0.1"@,
        HttpDestination::Image => "image/avif,image/webp,image/png,image/svg+xml,image/*,*/*;q=0.8"@,
        HttpDestination::Font => "font/woff2,font/woff,application/font-woff,*/*;q=0.1"@,
        HttpDestination::Media => "video/*,audio/*,*/*;q=0.2"@,
        HttpDestination::Manifest => "application/manifest+json,application/json,*/*;q=0.1"@,
        HttpDestination::Fetch | HttpDestination::Xhr | HttpDestination::Other => "*/*"@,
    }
}

/// Stable label of a destination.
pub open spec fn destination_label(d: HttpDestination) -> Seq<char> {
    match d {
        HttpDestination::Document => "document"@,
        HttpDestination::Style => "style"@,
        HttpDestination::Script => "script"@,
        HttpDestination::Image => "image"@,
        HttpDestination::Font => "font"@,
        HttpDestination::Media => "media"@,
        HttpDestination::Worker => "worker"@,
        HttpDestination::Manifest => "manifest"@,
        HttpDestination::Fetch => "fetch"@,
        HttpDestination::Xhr => "xhr"@,
        HttpDestination::Other => "other"@,
    }
}

impl HttpDestination {
    /// Default Accept header for this destination.
    pub fn accept_header(self) -> (r: &'static str)
        ensures
            r@ == accept_header_of(self),
    {
        match self {
            Self::Document => "text/html,application/xhtml+xml,application/xml;q=0.9,*/*;q=0.8",
            Self::Style => "text/css,*/*;q=0.1",
            Self::Script | Self::Worker => "text/javascript,application/javascript,application/ecmascript,*/*;q=0.1",
            Self::Image => "image/avif,image/webp,image/png,image/svg+xml,image/*,*/*;q=0.8",
            Self::Font => "font/woff2,font/woff,application/font-woff,*/*;q=0.1",
            Self::Media => "video/*,audio/*,*/*;q=0.2",
            Self::Manifest => "application/manifest+json,application/json,*/*;q=0.1",
            Self::Fetch | Self::Xhr | Self::Other => "*/*",
        }
    }

    /// Stable label.
    pub fn as_str(self) -> (r: &'static str)
        ensures
            r@ == destination_label(self),
    {
        match self {
            Self::Document => "document",
            Self::Style => "style",
            Self::Script => "script",
            Self::Image => "image",
            Self::Font => "font",
            Self::Media => "media",
            Self::Worker => "worker",
            Self::Manifest => "manifest",
            Self::Fetch => "fetch",
            Self::Xhr => "xhr",
            Self::Other => "other",
        }
    }
}

/// Response tainting/type visible to script-level APIs.
#[derive(Debug, Clone, Copy, PartialEq, Eq, Structural)]
pub enum HttpResponseType {
    Basic,
    Cors,
    Opaque,
    OpaqueRedirect,
    Error,
}

impl Default for HttpResponseType {
    fn default() -> (t: Self)
        ensures
            t == HttpResponseType::Basic,
    {
        HttpResponseType::Basic
    }
}

// ---------------------------------------------------------------------------
// MIME types
// ---------------------------------------------------------------------------

/// Parsed Content-Type essence and optional charset.
#[derive(Debug, Clone, PartialEq, Eq)]
pub struct HttpMimeType {
    /// Lowercase type/subtype, e.g. `text/html`.
    pub essence: String,
    /// Optional charset value.
    pub charset: Option<String>,
    /// Whether this value came from sniffing rather than an explicit header.
    pub sniffed: bool,
}

/// The essence a MIME type is built with: trimmed and ASCII lower-cased.
pub open spec fn mime_essence(s: Seq<char>) -> Seq<char> {
    lower(trim(s))
}

/// Charset named by the last `charset=` parameter among `params`.
pub open spec fn charset_param(params: Seq<Seq<char>>) -> Option<Seq<char>>
    decreases params.len(),
{
    if params.len() == 0 {
        None
    } else {
        match split_once(params.last(), "="@) {
            Some((k, v)) => if crate::text::eq_ignore_case(trim(k), "charset"@) {
                Some(strip(trim(v), '"'))
            } else {
                charset_param(params.drop_last())
            },
            None => charset_param(params.drop_last()),
        }
    }
}

/// `HttpMimeType::parse` as a function of the header text.
pub open spec fn parse_mime_spec(value: Seq<char>) -> Option<(Seq<char>, Option<Seq<char>>)> {
    let parts = split(value, ';');
    let essence = lower(trim(parts[0]));
    if !contains(essence, "/"@) || contains(essence, " "@) || essence.len() == 0 {
        None
    } else {
        Some((mime_essence(essence), charset_param(parts.skip(1))))
    }
}

/// JavaScript MIME essences accepted by browsers.
pub open spec fn is_javascript_essence(e: Seq<char>) -> bool {
    e == "text/javascript"@ || e == "application/javascript"@ || e == "application/ecmascript"@
        || e == "text/ecmascript"@ || e == "application/x-javascript"@
}

impl HttpMimeType {
    /// Creates a MIME type from an essence (trimmed and lower-cased).
    pub fn new(essence: &str) -> (m: Self)
        ensures
            m.essence@ == mime_essence(essence@),
            m.charset is None,
            !m.sniffed,
    {
        let v = chars_of(essence);
        let t = trim_chars(v.as_slice());
        let l = lower_chars(t.as_slice());
        Self { essence: string_from(l.as_slice()), charset: None, sniffed: false }
    }

    /// Marks this MIME type as sniffed.
    pub fn sniffed(self) -> (m: Self)
        ensures
            m.essence == self.essence,
            m.charset == self.charset,
            m.sniffed,
    {
        Self { essence: self.essence, charset: self.charset, sniffed: true }
    }

    /// Parses a Content-Type value: the essence must contain `/`, no space,
    /// and be non-empty; the last `charset` parameter wins.
    pub fn parse(value: &str) -> (r: Option<Self>)
        ensures
            match r {
                Some(m) => parse_mime_spec(value@) == Some((m.essence@, match m.charset {
                    Some(c) => Some(c@),
                    None => None,
                })) && !m.sniffed,
                None => parse_mime_spec(value@) is None,
            },
    {
        let v = chars_of(value);
        let parts = split_exec(v.as_slice(), ';');
        proof {
            lemma_split_nonempty(v@, ';');
        }
        let t = trim_chars(parts[0].as_slice());
        let essence = lower_chars(t.as_slice());
        let slash: Vec<char> = vec!['/'];
        let space: Vec<char> = vec![' '];
        assert(slash@ =~= "/"@) by {
            reveal_strlit("/");
        }
        assert(space@ =~= " "@) by {
            reveal_strlit(" ");
        }
        if !crate::text::contains_exec(essence.as_slice(), slash.as_slice())
            || crate::text::contains_exec(essence.as_slice(), space.as_slice()) || essence.len() == 0 {
            return None;
        }
        let es = string_from(essence.as_slice());
        let mut mime = Self::new(es.as_str());
        let ghost params = split(v@, ';').skip(1);
        let mut i: usize = 1;
        let eq: Vec<char> = vec!['='];
        assert(eq@ =~= "="@) by {
            reveal_strlit("=");
        }
        assert(params.take(0) =~= Seq::<Seq<char>>::empty());
        while i < parts.len()
            invariant
                1 <= i <= parts@.len(),
                parts@.len() == split(v@, ';').len(),
                forall|k: int| 0 <= k < parts@.len() ==> #[trigger] parts@[k]@ == split(v@, ';')[k],
                params == split(v@, ';').skip(1),
                eq@ == "="@,
                mime.essence@ == mime_essence(essence@),
                !mime.sniffed,
                match mime.charset {
                    Some(c) => charset_param(params.take(i - 1)) == Some(c@),
                    None => charset_param(params.take(i - 1)) is None,
                },
            decreases parts.len() - i,
        {
            let ghost before = params.take(i - 1);
            let ghost now = params.take(i as int);
            assert(now.drop_last() =~= before);
            assert(now.last() == parts@[i as int]@);
            match split_once_exec(parts[i].as_slice(), eq.as_slice()) {
                Some((key, val)) => {
                    let kt = trim_chars(key.as_slice());
                    let kl = lower_chars(kt.as_slice());
                    let is_charset = is_lit(kl.as_slice(), "charset");
                    proof {
                        reveal_strlit("charset");
                        assert(lower("charset"@) =~= "charset"@);
                    }
                    if is_charset {
                        let vt = trim_chars(val.as_slice());
                        let vs = strip_chars(vt.as_slice(), '"');
                        mime.charset = Some(string_from(vs.as_slice()));
                    }
                },
                None => {},
            }
            i = i + 1;
        }
        assert(params.take(parts.len() - 1) =~= params);
        Some(mime)
    }

    /// Returns true for JavaScript MIME types accepted by browsers.
    pub fn is_javascript(&self) -> (r: bool)
        ensures
            r == is_javascript_essence(self.essence@),
    {
        let e = chars_of(self.essence.as_str());
        let e = e.as_slice();
        is_lit(e, "text/javascript") || is_lit(e, "application/javascript") || is_lit(
            e,
            "application/ecmascript",
        ) || is_lit(e, "text/ecmascript") || is_lit(e, "application/x-javascript")
    }

    /// Returns true for CSS.
    pub fn is_css(&self) -> (r: bool)
        ensures
            r == (self.essence@ == "text/css"@),
    {
        let e = chars_of(self.essence.as_str());
        is_lit(e.as_slice(), "text/css")
    }

    /// Returns true for HTML-ish documents.
    pub fn is_html(&self) -> (r: bool)
        ensures
            r == (self.essence@ == "text/html"@ || self.essence@ == "application/xhtml+xml"@),
    {
        let e = chars_of(self.essence.as_str());
        is_lit(e.as_slice(), "text/html") || is_lit(e.as_slice(), "application/xhtml+xml")
    }
}

/// Splitting always yields at least one piece.
pub proof fn lemma_split_nonempty(s: Seq<char>, sep: char)
    ensures
        split(s, sep).len() >= 1,
    decreases s.len(),
{
    match crate::text::index_of(s, sep) {
        Some(i) => if 0 <= i < s.len() {
            lemma_split_nonempty(s.skip(i + 1), sep);
        },
        None => {},
    }
}

// ---------------------------------------------------------------------------
// Cache-Control and freshness
// ---------------------------------------------------------------------------

/// Parsed Cache-Control fields.
#[derive(Debug, Clone, Copy, PartialEq, Eq, Structural)]
pub struct HttpCacheControl {
    pub no_store: bool,
    pub no_cache: bool,
    pub must_revalidate: bool,
    pub public: bool,
    pub private: bool,
    pub immutable: bool,
    pub max_age_secs: Option<u64>,
    pub stale_while_revalidate_secs: Option<u64>,
}

/// Cache-Control with no directive set.
pub open spec fn empty_cache_control() -> HttpCacheControl {
    HttpCacheControl {
        no_store: false,
        no_cache: false,
        must_revalidate: false,
        public: false,
        private: false,
        immutable: false,
        max_age_secs: None,
        stale_while_revalidate_secs: None,
    }
}

impl Default for HttpCacheControl {
    fn default() -> (c: Self)
        ensures
            c == empty_cache_control(),
    {
        Self {
            no_store: false,
            no_cache: false,
            must_revalidate: false,
            public: false,
            private: false,
            immutable: false,
            max_age_secs: None,
            stale_while_revalidate_secs: None,
        }
    }
}

/// Lower-cased name of a trimmed directive.
pub open spec fn directive_name(d: Seq<char>) -> Seq<char> {
    match split_once(d, "="@) {
        Some((n, _)) => lower(trim(n)),
        None => lower(trim(d)),
    }
}

/// Value of a trimmed directive, trimmed and unquoted.
pub open spec fn directive_value(d: Seq<char>) -> Seq<char> {
    match split_once(d, "="@) {
        Some((_, v)) => strip(trim(v), '"'),
        None => strip(trim(Seq::<char>::empty()), '"'),
    }
}

/// Effect of one raw directive.
pub open spec fn apply_directive(c: HttpCacheControl, raw: Seq<char>) -> HttpCacheControl {
    let d = trim(raw);
    if d.len() == 0 {
        c
    } else {
        let name = directive_name(d);
        let value = directive_value(d);
        if name == "no-store"@ {
            HttpCacheControl { no_store: true, ..c }
        } else if name == "no-cache"@ {
            HttpCacheControl { no_cache: true, ..c }
        } else if name == "must-revalidate"@ || name == "proxy-revalidate"@ {
            HttpCacheControl { must_revalidate: true, ..c }
        } else if name == "public"@ {
            HttpCacheControl { public: true, ..c }
        } else if name == "private"@ {
            HttpCacheControl { private: true, ..c }
        } else if name == "immutable"@ {
            HttpCacheControl { immutable: true, ..c }
        } else if name == "max-age"@ {
            HttpCacheControl { max_age_secs: parse_u64(value), ..c }
        } else if name == "stale-while-revalidate"@ {
            HttpCacheControl { stale_while_revalidate_secs: parse_u64(value), ..c }
        } else {
            c
        }
    }
}

/// Directives applied left to right.
pub open spec fn apply_directives(parts: Seq<Seq<char>>) -> HttpCacheControl
    decreases parts.len(),
{
    if parts.len() == 0 {
        empty_cache_control()
    } else {
        apply_directive(apply_directives(parts.drop_last()), parts.last())
    }
}

/// `HttpCacheControl::parse` as a function of the header text.
pub open spec fn parse_cache_control(value: Seq<char>) -> HttpCacheControl {
    apply_directives(split(value, ','))
}

/// Applying directives in order sets `must_revalidate` exactly when one of
/// them, trimmed, is named `must-revalidate` or `proxy-revalidate` (in any
/// case, with or without a value): no directive clears it once set.
pub proof fn lemma_must_revalidate_iff(parts: Seq<Seq<char>>)
    ensures
        apply_directives(parts).must_revalidate <==> exists|k: int|
            0 <= k < parts.len() && (directive_name(trim(#[trigger] parts[k])) == "must-revalidate"@
                || directive_name(trim(parts[k])) == "proxy-revalidate"@),
    decreases parts.len(),
{
    if parts.len() > 0 {
        let p = parts.drop_last();
        let n = parts.len() - 1;
        lemma_must_revalidate_iff(p);
        assert forall|k: int| 0 <= k < p.len() implies #[trigger] p[k] == parts[k] by {}
        reveal_strlit("no-store");
        reveal_strlit("no-cache");
        reveal_strlit("must-revalidate");
        reveal_strlit("proxy-revalidate");
        let named = |s: Seq<char>|
            directive_name(trim(s)) == "must-revalidate"@ || directive_name(trim(s))
                == "proxy-revalidate"@;
        if named(parts[n]) {
            assert(trim(parts[n]).len() > 0) by {
                if trim(parts[n]).len() == 0 {
                    lemma_name_of_empty(trim(parts[n]));
                }
            }
            assert(parts.last() == parts[n]);
            assert(apply_directives(parts) == apply_directive(apply_directives(p), parts[n]));
            let name = directive_name(trim(parts[n]));
            assert(name.len() == 15 || name.len() == 16);
            assert(name != "no-store"@);
            assert(name != "no-cache"@);
            assert(apply_directive(apply_directives(p), parts[n]).must_revalidate);
        }
        if apply_directives(parts).must_revalidate {
            if !named(parts[n]) {
                let k = choose|k: int|
                    0 <= k < p.len() && (directive_name(trim(#[trigger] p[k])) == "must-revalidate"@
                        || directive_name(trim(p[k])) == "proxy-revalidate"@);
                assert(parts[k] == p[k]);
            }
        } else {
            assert forall|k: int| 0 <= k < parts.len() implies !(directive_name(
                trim(#[trigger] parts[k]),
            ) == "must-revalidate"@ || directive_name(trim(parts[k])) == "proxy-revalidate"@) by {
                if k < n {
                    assert(parts[k] == p[k]);
                }
            }
        }
    }
}

/// The name of an empty directive is empty.
proof fn lemma_name_of_empty(d: Seq<char>)
    requires
        d.len() == 0,
    ensures
        directive_name(d).len() == 0,
{
    reveal_strlit("=");
    assert(crate::text::find(d, "="@) is None);
    assert(crate::text::trim_start(d) == d);
    assert(crate::text::trim_end(d) == d);
}

/// `HttpCacheControl::parse` sets `must_revalidate` exactly when one of the
/// comma-separated directives is named `must-revalidate` or
/// `proxy-revalidate`; so a cacheable response whose Cache-Control names one
/// of them is revalidated on use.
pub proof fn lemma_parse_must_revalidate(value: Seq<char>)
    ensures
        parse_cache_control(value).must_revalidate <==> exists|k: int|
            0 <= k < split(value, ',').len() && (directive_name(trim(#[trigger] split(value, ',')[k]))
                == "must-revalidate"@ || directive_name(trim(split(value, ',')[k])) == "proxy-revalidate"@),
{
    lemma_must_revalidate_iff(split(value, ','));
}

impl HttpCacheControl {
    /// Parses Cache-Control: comma-separated directives, later ones overriding earlier ones.
    pub fn parse(value: &str) -> (c: Self)
        ensures
            c == parse_cache_control(value@),
    {
        let v = chars_of(value);
        let parts = split_exec(v.as_slice(), ',');
        let mut parsed = Self::default();
        let mut i: usize = 0;
        let ghost all = split(v@, ',');
        assert(all.take(0) =~= Seq::<Seq<char>>::empty());
        while i < parts.len()
            invariant
                i <= parts@.len(),
                all == split(v@, ','),
                parts@.len() == all.len(),
                forall|k: int| 0 <= k < parts@.len() ==> #[trigger] parts@[k]@ == all[k],
                parsed == apply_directives(all.take(i as int)),
            decreases parts.len() - i,
        {
            assert(all.take(i + 1).drop_last() =~= all.take(i as int));
            parsed = apply_directive_exec(parsed, parts[i].as_slice());
            i = i + 1;
        }
        assert(all.take(parts.len() as int) =~= all);
        parsed
    }
}

fn apply_directive_exec(c: HttpCacheControl, raw: &[char]) -> (r: HttpCacheControl)
    ensures
        r == apply_directive(c, raw@),
{
    let d = trim_chars(raw);
    if d.len() == 0 {
        return c;
    }
    let eq: Vec<char> = vec!['='];
    assert(eq@ =~= "="@) by {
        reveal_strlit("=");
    }
    let (name, value) = match split_once_exec(d.as_slice(), eq.as_slice()) {
        Some((n, v)) => {
            let nt = trim_chars(n.as_slice());
            let vt = trim_chars(v.as_slice());
            (lower_chars(nt.as_slice()), strip_chars(vt.as_slice(), '"'))
        },
        None => {
            let nt = trim_chars(d.as_slice());
            let empty: Vec<char> = Vec::new();
            let vt = trim_chars(empty.as_slice());
            (lower_chars(nt.as_slice()), strip_chars(vt.as_slice(), '"'))
        },
    };
    assert(name@ == directive_name(d@));
    assert(value@ == directive_value(d@));
    let n = name.as_slice();
    let mut r = c;
    if is_lit(n, "no-store") {
        r.no_store = true;
    } else if is_lit(n, "no-cache") {
        r.no_cache = true;
    } else if is_lit(n, "must-revalidate") || is_lit(n, "proxy-revalidate") {
        r.must_revalidate = true;
    } else if is_lit(n, "public") {
        r.public = true;
    } else if is_lit(n, "private") {
        r.private = true;
    } else if is_lit(n, "immutable") {
        r.immutable = true;
    } else if is_lit(n, "max-age") {
        r.max_age_secs = parse_u64_chars(value.as_slice());
    } else if is_lit(n, "stale-while-revalidate") {
        r.stale_while_revalidate_secs = parse_u64_chars(value.as_slice());
    }
    r
}

/// Cache freshness decision for a response.
#[derive(Debug, Clone, PartialEq, Eq)]
pub struct HttpFreshnessDecision {
    pub storable: bool,
    pub expires_at_ms: u64,
    pub revalidate_on_use: bool,
    pub reason: String,
}

impl HttpFreshnessDecision {
    /// Non-storable response.
    pub fn no_store(now_ms: u64, reason: &str) -> (d: Self)
        ensures
            !d.storable,
            d.expires_at_ms == now_ms,
            !d.revalidate_on_use,
            d.reason@ == reason@,
    {
        Self { storable: false, expires_at_ms: now_ms, revalidate_on_use: false, reason: owned(reason) }
    }
}

/// Redirect record used by fetch/app diagnostics.
#[derive(Debug, Clone, PartialEq, Eq)]
pub struct HttpRedirectRecord {
    pub from_url: String,
    pub to_url: String,
    pub status: u16,
}

/// Saturating `u64` arithmetic.
pub open spec fn sat_add_u64(a: u64, b: u64) -> u64 {
    if a + b > u64::MAX { u64::MAX } else { (a + b) as u64 }
}

/// Saturating `u64` multiplication.
pub open spec fn sat_mul_u64(a: u64, b: u64) -> u64 {
    if a * b > u64::MAX { u64::MAX } else { (a * b) as u64 }
}

/// Status codes cacheable by default or with explicit controls.
pub open spec fn cacheable_status(status: u16) -> bool {
    status == 200 || status == 203 || status == 204 || status == 206 || status == 300 || status
        == 301 || status == 308 || status == 404 || status == 405 || status == 410 || status == 414
        || status == 501
}

/// The Cache-Control a header list carries (empty when absent).
pub open spec fn header_cache_control(m: Map<Seq<char>, Seq<char>>) -> HttpCacheControl {
    if m.dom().contains("cache-control"@) {
        parse_cache_control(m["cache-control"@])
    } else {
        empty_cache_control()
    }
}

/// Computes whether a response is storable and how long it is fresh.
///
/// Non-cacheable statuses and `no-store` are not storable and expire now.
/// Otherwise the lifetime is `max-age` seconds when present, else the default
/// lifetime; `no-cache` or `must-revalidate` asks for revalidation on use.
pub fn compute_freshness(
    status: u16,
    headers: &HttpHeaderList,
    default_ttl_ms: u64,
    now_ms: u64,
) -> (d: HttpFreshnessDecision)
    ensures
        !cacheable_status(status) ==> !d.storable && d.expires_at_ms == now_ms
            && !d.revalidate_on_use && d.reason@ == "status "@ + decimal(status as nat)
            + " is not cacheable"@,
        cacheable_status(status) && header_cache_control(headers.header_map()).no_store ==> !d.storable
            && d.expires_at_ms == now_ms && !d.revalidate_on_use && d.reason@
            == "Cache-Control: no-store"@,
        cacheable_status(status) && !header_cache_control(headers.header_map()).no_store ==> {
            let cc = header_cache_control(headers.header_map());
            &&& d.storable
            &&& d.expires_at_ms == sat_add_u64(
                now_ms,
                match cc.max_age_secs {
                    Some(a) => sat_mul_u64(a, 1000),
                    None => default_ttl_ms,
                },
            )
            &&& d.revalidate_on_use == (cc.no_cache || cc.must_revalidate)
            &&& d.reason@ == (if cc.max_age_secs is Some {
                "Cache-Control max-age"@
            } else if headers.header_map().dom().contains("expires"@) {
                "Expires header"@
            } else {
                "default resource ttl"@
            })
        },
{
    if !is_cacheable_status(status) {
        let mut reason = owned("status ");
        let code = decimal_string(status as u64);
        append_str(&mut reason, code.as_str());
        append_str(&mut reason, " is not cacheable");
        return HttpFreshnessDecision {
            storable: false,
            expires_at_ms: now_ms,
            revalidate_on_use: false,
            reason,
        };
    }
    proof {
        reveal_strlit("cache-control");
        reveal_strlit("expires");
        assert(normalize_header_name("cache-control"@) =~= "cache-control"@);
        assert(normalize_header_name("expires"@) =~= "expires"@);
    }
    let cache_control = match headers.get("cache-control") {
        Some(value) => HttpCacheControl::parse(value),
        None => HttpCacheControl::default(),
    };
    if cache_control.no_store {
        return HttpFreshnessDecision::no_store(now_ms, "Cache-Control: no-store");
    }
    let ttl_ms = match cache_control.max_age_secs {
        Some(max_age) => if max_age > u64::MAX / 1000 {
            u64::MAX
        } else {
            max_age * 1000
        },
        None => default_ttl_ms,
    };
    let revalidate = cache_control.no_cache || cache_control.must_revalidate;
    let reason = if cache_control.max_age_secs.is_some() {
        owned("Cache-Control max-age")
    } else if headers.contains("expires") {
        owned("Expires header")
    } else {
        owned("default resource ttl")
    };
    HttpFreshnessDecision {
        storable: true,
        expires_at_ms: now_ms.saturating_add(ttl_ms),
        revalidate_on_use: revalidate,
        reason,
    }
}

/// Returns whether status is a redirect response (301, 302, 303, 307, 308).
pub fn is_redirect_status(status: u16) -> (r: bool)
    ensures
        r == (status == 301 || status == 302 || status == 303 || status == 307 || status == 308),
{
    status == 301 || status == 302 || status == 303 || status == 307 || status == 308
}

/// Returns whether status is a success response (2xx).
pub fn is_success_status(status: u16) -> (r: bool)
    ensures
        r == (200 <= status < 300),
{
    status >= 200 && status < 300
}

/// Returns whether status is cacheable by default or with explicit controls.
pub fn is_cacheable_status(status: u16) -> (r: bool)
    ensures
        r == cacheable_status(status),
{
    status == 200 || status == 203 || status == 204 || status == 206 || status == 300 || status
        == 301 || status == 308 || status == 404 || status == 405 || status == 410 || status == 414
        || status == 501
}

// ---------------------------------------------------------------------------
// MIME sniffing
// ---------------------------------------------------------------------------

/// URL extension table consulted for a destination, in order.
pub open spec fn extension_table(d: HttpDestination) -> Seq<(Seq<char>, Seq<char>)> {
    match d {
        HttpDestination::Document => seq![
            (".html"@, "text/html"@),
            (".htm"@, "text/html"@),
            (".xhtml"@, "application/xhtml+xml"@),
            (".xml"@, "application/xml"@),
        ],
        HttpDestination::Style => seq![(".css"@, "text/css"@)],
        HttpDestination::Script | HttpDestination::Worker => seq![
            (".js"@, "text/javascript"@),
            (".mjs"@, "text/javascript"@),
            (".json"@, "application/json"@),
        ],
        HttpDestination::Image => seq![
            (".png"@, "image/png"@),
            (".jpg"@, "image/jpeg"@),
            (".jpeg"@, "image/jpeg"@),
            (".gif"@, "image/gif"@),
            (".webp"@, "image/webp"@),
            (".svg"@, "image/svg+xml"@),
            (".bmp"@, "image/bmp"@),
            (".ico"@, "image/x-icon"@),
        ],
        HttpDestination::Font => seq![
            (".woff2"@, "font/woff2"@),
            (".woff"@, "font/woff"@),
            (".ttf"@, "font/ttf"@),
            (".otf"@, "font/otf"@),
        ],
        HttpDestination::Media => seq![
            (".mp4"@, "video/mp4"@),
            (".webm"@, "video/webm"@),
            (".mp3"@, "audio/mpeg"@),
            (".wav"@, "audio/wav"@),
        ],
        HttpDestination::Manifest => seq![
            (".webmanifest"@, "application/manifest+json"@),
            (".json"@, "application/json"@),
        ],
        HttpDestination::Fetch | HttpDestination::Xhr | HttpDestination::Other => seq![],
    }
}

/// MIME of the first table entry whose extension ends `url`.
pub open spec fn extension_match(url: Seq<char>, table: Seq<(Seq<char>, Seq<char>)>) -> Option<Seq<char>>
    decreases table.len(),
{
    if table.len() == 0 {
        None
    } else if ends_with(url, table[0].0) {
        Some(table[0].1)
    } else {
        extension_match(url, table.drop_first())
    }
}

/// Bytes skipped before content sniffing: ASCII spaces/newlines/tabs and UTF-8 BOM bytes.
pub open spec fn is_sniff_skip_byte(b: u8) -> bool {
    b == 0x20 || b == 0x0a || b == 0x0d || b == 0x09 || b == 0xef || b == 0xbb || b == 0xbf
}

/// Body prefix with leading skip bytes removed.
pub open spec fn sniff_trimmed(s: Seq<u8>) -> Seq<u8>
    decreases s.len(),
{
    if s.len() > 0 && is_sniff_skip_byte(s[0]) {
        sniff_trimmed(s.drop_first())
    } else {
        s
    }
}

/// `h` starts with the characters of `n` read as bytes.
pub open spec fn bytes_start(h: Seq<u8>, n: Seq<char>) -> bool {
    n.len() <= h.len() && forall|i: int| 0 <= i < n.len() ==> (#[trigger] h[i]) as char == n[i]
}

/// `h` starts with `n`, ASCII case-insensitively.
pub open spec fn bytes_start_ci(h: Seq<u8>, n: Seq<char>) -> bool {
    n.len() <= h.len() && forall|i: int| 0 <= i < n.len() ==> crate::text::lower_char((#[trigger] h[i]) as char)
        == crate::text::lower_char(n[i])
}

/// Result of sniffing: essence, charset, and whether it was sniffed.
pub type MimeResult = (Seq<char>, Option<Seq<char>>, bool);

/// Sniffed MIME result for a literal essence.
pub open spec fn sniffed_result(e: Seq<char>) -> MimeResult {
    (mime_essence(e), None, true)
}

/// Content sniffing of the body prefix, after header and extension checks failed.
pub open spec fn sniff_content(d: HttpDestination, lower_url: Seq<char>, prefix: Seq<u8>) -> MimeResult {
    let t = sniff_trimmed(prefix);
    if bytes_start_ci(t, "<!doctype html"@) || bytes_start_ci(t, "<html"@) || bytes_start_ci(
        t,
        "<script"@,
    ) {
        sniffed_result("text/html"@)
    } else if bytes_start_ci(t, "<?xml"@) || bytes_start_ci(t, "<svg"@) {
        if d == HttpDestination::Image || ends_with(lower_url, ".svg"@) {
            sniffed_result("image/svg+xml"@)
        } else {
            sniffed_result("application/xml"@)
        }
    } else if bytes_start(prefix, "\u{89}PNG\r\n\u{1a}\n"@) {
        sniffed_result("image/png"@)
    } else if bytes_start(prefix, "\u{ff}\u{d8}\u{ff}"@) {
        sniffed_result("image/jpeg"@)
    } else if bytes_start(prefix, "GIF87a"@) || bytes_start(prefix, "GIF89a"@) {
        sniffed_result("image/gif"@)
    } else if bytes_start(prefix, "RIFF"@) && prefix.len() >= 12 && bytes_start(
        prefix.subrange(8, 12),
        "WEBP"@,
    ) {
        sniffed_result("image/webp"@)
    } else if t.len() > 0 && (t[0] == 0x7b || t[0] == 0x5b) {
        sniffed_result("application/json"@)
    } else {
        match d {
            HttpDestination::Document => sniffed_result("text/html"@),
            HttpDestination::Style => sniffed_result("text/css"@),
            HttpDestination::Script | HttpDestination::Worker => sniffed_result("text/javascript"@),
            HttpDestination::Manifest => sniffed_result("application/manifest+json"@),
            _ => sniffed_result("application/octet-stream"@),
        }
    }
}

/// `sniff_mime` as a function of its inputs.
pub open spec fn sniff_spec(
    d: HttpDestination,
    url: Seq<char>,
    headers: Map<Seq<char>, Seq<char>>,
    prefix: Seq<u8>,
) -> MimeResult {
    let header = if headers.dom().contains("content-type"@) {
        parse_mime_spec(headers["content-type"@])
    } else {
        None
    };
    match header {
        Some((e, c)) => (e, c, false),
        None => match extension_match(lower(url), extension_table(d)) {
            Some(m) => sniffed_result(m),
            None => sniff_content(d, lower(url), prefix),
        },
    }
}

/// The MIME result a value denotes.
pub open spec fn mime_result(m: HttpMimeType) -> MimeResult {
    (
        m.essence@,
        match m.charset {
            Some(c) => Some(c@),
            None => None,
        },
        m.sniffed,
    )
}

fn sniffed_mime(essence: &str) -> (m: HttpMimeType)
    ensures
        mime_result(m) == sniffed_result(essence@),
{
    HttpMimeType::new(essence).sniffed()
}

fn extension_table_exec(d: HttpDestination) -> (r: Vec<(&'static str, &'static str)>)
    ensures
        r@.len() == extension_table(d).len(),
        forall|i: int| 0 <= i < r@.len() ==> (#[trigger] r@[i]).0@ == extension_table(d)[i].0
            && r@[i].1@ == extension_table(d)[i].1,
{
    match d {
        HttpDestination::Document => vec![
            (".html", "text/html"),
            (".htm", "text/html"),
            (".xhtml", "application/xhtml+xml"),
            (".xml", "application/xml"),
        ],
        HttpDestination::Style => vec![(".css", "text/css")],
        HttpDestination::Script | HttpDestination::Worker => vec![
            (".js", "text/javascript"),
            (".mjs", "text/javascript"),
            (".json", "application/json"),
        ],
        HttpDestination::Image => vec![
            (".png", "image/png"),
            (".jpg", "image/jpeg"),
            (".jpeg", "image/jpeg"),
            (".gif", "image/gif"),
            (".webp", "image/webp"),
            (".svg", "image/svg+xml"),
            (".bmp", "image/bmp"),
            (".ico", "image/x-icon"),
        ],
        HttpDestination::Font => vec![
            (".woff2", "font/woff2"),
            (".woff", "font/woff"),
            (".ttf", "font/ttf"),
            (".otf", "font/otf"),
        ],
        HttpDestination::Media => vec![
            (".mp4", "video/mp4"),
            (".webm", "video/webm"),
            (".mp3", "audio/mpeg"),
            (".wav", "audio/wav"),
        ],
        HttpDestination::Manifest => vec![
            (".webmanifest", "application/manifest+json"),
            (".json", "application/json"),
        ],
        HttpDestination::Fetch | HttpDestination::Xhr | HttpDestination::Other => Vec::new(),
    }
}

fn sniff_skip_len(prefix: &[u8]) -> (n: usize)
    ensures
        n <= prefix@.len(),
        prefix@.skip(n as int) == sniff_trimmed(prefix@),
{
    let mut i: usize = 0;
    assert(prefix@.skip(0) =~= prefix@);
    while i < prefix.len() && (prefix[i] == 0x20 || prefix[i] == 0x0a || prefix[i] == 0x0d
        || prefix[i] == 0x09 || prefix[i] == 0xef || prefix[i] == 0xbb || prefix[i] == 0xbf)
        invariant
            i <= prefix@.len(),
            sniff_trimmed(prefix@) == sniff_trimmed(prefix@.skip(i as int)),
        decreases prefix.len() - i,
    {
        assert(prefix@.skip(i as int).drop_first() =~= prefix@.skip(i + 1));
        i = i + 1;
    }
    i
}

fn bytes_start_exec(h: &[u8], from: usize, n: &str, ci: bool) -> (r: bool)
    requires
        from <= h@.len(),
    ensures
        ci ==> r == bytes_start_ci(h@.skip(from as int), n@),
        !ci ==> r == bytes_start(h@.skip(from as int), n@),
{
    let nv = chars_of(n);
    let ghost t = h@.skip(from as int);
    let hl = h.len();
    if nv.len() > hl - from {
        return false;
    }
    let mut i: usize = 0;
    while i < nv.len()
        invariant
            hl == h@.len(),
            i <= nv@.len(),
            nv@ == n@,
            from + nv@.len() <= h@.len(),
            t == h@.skip(from as int),
            ci ==> forall|k: int| 0 <= k < i ==> crate::text::lower_char((#[trigger] t[k]) as char)
                == crate::text::lower_char(n@[k]),
            !ci ==> forall|k: int| 0 <= k < i ==> (#[trigger] t[k]) as char == n@[k],
        decreases nv.len() - i,
    {
        let b = h[from + i];
        let hc = b as char;
        assert(t[i as int] == b);
        if ci {
            if crate::text::lower_char_exec(hc) != crate::text::lower_char_exec(nv[i]) {
                return false;
            }
        } else {
            if hc != nv[i] {
                return false;
            }
        }
        i = i + 1;
    }
    true
}

/// Performs deterministic MIME sniffing from Content-Type, destination, URL
/// extension, and body prefix, in that order of preference.
pub fn sniff_mime(destination: HttpDestination, url: &str, headers: &HttpHeaderList, prefix: &[u8]) -> (m: HttpMimeType)
    ensures
        mime_result(m) == sniff_spec(destination, url@, headers.header_map(), prefix@),
{
    proof {
        reveal_strlit("content-type");
        assert(normalize_header_name("content-type"@) =~= "content-type"@);
    }
    let header = match headers.get("content-type") {
        Some(content_type) => HttpMimeType::parse(content_type),
        None => None,
    };
    if let Some(parsed) = header {
        return parsed;
    }
    let uv = chars_of(url);
    let lower_url = lower_chars(uv.as_slice());
    let table = extension_table_exec(destination);
    let mut i: usize = 0;
    let ghost tbl = extension_table(destination);
    assert(tbl.skip(0) =~= tbl);
    assert(sniff_spec(destination, url@, headers.header_map(), prefix@) == match extension_match(
        lower_url@,
        tbl,
    ) {
        Some(m) => sniffed_result(m),
        None => sniff_content(destination, lower_url@, prefix@),
    });
    while i < table.len()
        invariant
            lower_url@ == lower(url@),
            sniff_spec(destination, url@, headers.header_map(), prefix@) == match extension_match(
                lower_url@,
                tbl,
            ) {
                Some(m) => sniffed_result(m),
                None => sniff_content(destination, lower_url@, prefix@),
            },
            i <= table@.len(),
            tbl == extension_table(destination),
            table@.len() == tbl.len(),
            forall|k: int| 0 <= k < table@.len() ==> (#[trigger] table@[k]).0@ == tbl[k].0
                && table@[k].1@ == tbl[k].1,
            extension_match(lower_url@, tbl) == extension_match(lower_url@, tbl.skip(i as int)),
        decreases table.len() - i,
    {
        let (ext, mime) = table[i];
        let ev = chars_of(ext);
        assert(tbl.skip(i as int)[0] == tbl[i as int]);
        assert(tbl.skip(i as int).drop_first() =~= tbl.skip(i + 1));
        if ends_with_exec(lower_url.as_slice(), ev.as_slice()) {
            return sniffed_mime(mime);
        }
        i = i + 1;
    }
    assert(tbl.skip(table.len() as int) =~= Seq::<(Seq<char>, Seq<char>)>::empty());
    sniff_content_exec(destination, lower_url.as_slice(), prefix)
}

fn sniff_content_exec(d: HttpDestination, lower_url: &[char], prefix: &[u8]) -> (m: HttpMimeType)
    ensures
        mime_result(m) == sniff_content(d, lower_url@, prefix@),
{
    let skip = sniff_skip_len(prefix);
    if bytes_start_exec(prefix, skip, "<!doctype html", true) || bytes_start_exec(
        prefix,
        skip,
        "<html",
        true,
    ) || bytes_start_exec(prefix, skip, "<script", true) {
        return sniffed_mime("text/html");
    }
    if bytes_start_exec(prefix, skip, "<?xml", true) || bytes_start_exec(prefix, skip, "<svg", true) {
        let svg = chars_of(".svg");
        if d == HttpDestination::Image || ends_with_exec(lower_url, svg.as_slice()) {
            return sniffed_mime("image/svg+xml");
        }
        return sniffed_mime("application/xml");
    }
    assert(prefix@.skip(0) =~= prefix@);
    if bytes_start_exec(prefix, 0, "\u{89}PNG\r\n\u{1a}\n", false) {
        return sniffed_mime("image/png");
    }
    if bytes_start_exec(prefix, 0, "\u{ff}\u{d8}\u{ff}", false) {
        return sniffed_mime("image/jpeg");
    }
    if bytes_start_exec(prefix, 0, "GIF87a", false) || bytes_start_exec(prefix, 0, "GIF89a", false) {
        return sniffed_mime("image/gif");
    }
    if bytes_start_exec(prefix, 0, "RIFF", false) && prefix.len() >= 12 {
        let window = slice_bytes(prefix, 8, 12);
        assert(window@.skip(0) =~= window@);
        if bytes_start_exec(window.as_slice(), 0, "WEBP", false) {
            return sniffed_mime("image/webp");
        }
    }
    if skip < prefix.len() && (prefix[skip] == 0x7b || prefix[skip] == 0x5b) {
        return sniffed_mime("application/json");
    }
    match d {
        HttpDestination::Document => sniffed_mime("text/html"),
        HttpDestination::Style => sniffed_mime("text/css"),
        HttpDestination::Script | HttpDestination::Worker => sniffed_mime("text/javascript"),
        HttpDestination::Manifest => sniffed_mime("application/manifest+json"),
        _ => sniffed_mime("application/octet-stream"),
    }
}

fn slice_bytes(v: &[u8], a: usize, b: usize) -> (r: Vec<u8>)
    requires
        a <= b <= v@.len(),
    ensures
        r@ == v@.subrange(a as int, b as int),
{
    let mut r: Vec<u8> = Vec::new();
    let mut k: usize = a;
    while k < b
        invariant
            a <= k <= b,
            b <= v@.len(),
            r@ == v@.subrange(a as int, k as int),
        decreases b - k,
    {
        r.push(v[k]);
        k = k + 1;
        assert(r@ =~= v@.subrange(a as int, k as int));
    }
    r
}

/// Whether a response MIME is usable for a destination.
pub open spec fn mime_allowed(d: HttpDestination, e: Seq<char>, sniffed: bool) -> bool {
    match d {
        HttpDestination::Document => e == "text/html"@ || e == "application/xhtml+xml"@ || e
            == "text/plain"@ || e == "application/xml"@,
        HttpDestination::Style => e == "text/css"@ || sniffed,
        HttpDestination::Script | HttpDestination::Worker => is_javascript_essence(e) || sniffed,
        HttpDestination::Image => starts_with(e, "image/"@) || e == "application/octet-stream"@,
        HttpDestination::Font => starts_with(e, "font/"@) || contains(e, "font"@) || e
            == "application/octet-stream"@,
        HttpDestination::Media => starts_with(e, "video/"@) || starts_with(e, "audio/"@) || e
            == "application/octet-stream"@,
        HttpDestination::Manifest => e == "application/manifest+json"@ || e == "application/json"@
            || sniffed,
        HttpDestination::Fetch | HttpDestination::Xhr | HttpDestination::Other => true,
    }
}

/// Validates that a response MIME is usable for a destination.
pub fn mime_allowed_for_destination(destination: HttpDestination, mime: &HttpMimeType) -> (r: bool)
    ensures
        r == mime_allowed(destination, mime.essence@, mime.sniffed),
{
    let ev = chars_of(mime.essence.as_str());
    let e = ev.as_slice();
    match destination {
        HttpDestination::Document => mime.is_html() || is_lit(e, "text/plain") || is_lit(
            e,
            "application/xml",
        ),
        HttpDestination::Style => mime.is_css() || mime.sniffed,
        HttpDestination::Script | HttpDestination::Worker => mime.is_javascript() || mime.sniffed,
        HttpDestination::Image => {
            let p = chars_of("image/");
            starts_with_exec(e, p.as_slice()) || is_lit(e, "application/octet-stream")
        },
        HttpDestination::Font => {
            let p = chars_of("font/");
            let q = chars_of("font");
            starts_with_exec(e, p.as_slice()) || crate::text::contains_exec(e, q.as_slice())
                || is_lit(e, "application/octet-stream")
        },
        HttpDestination::Media => {
            let p = chars_of("video/");
            let q = chars_of("audio/");
            starts_with_exec(e, p.as_slice()) || starts_with_exec(e, q.as_slice()) || is_lit(
                e,
                "application/octet-stream",
            )
        },
        HttpDestination::Manifest => is_lit(e, "application/manifest+json") || is_lit(
            e,
            "application/json",
        ) || mime.sniffed,
        HttpDestination::Fetch | HttpDestination::Xhr | HttpDestination::Other => true,
    }
}

} // verus!
