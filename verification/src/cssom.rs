//! Deterministic CSSOM: inline styles, stylesheets and rules, a small
//! cascade for computed style, and style invalidation records.

use crate::dom::{attr_get, attr_lookup, DomHost, DomNodeRef, DomNodeSnapshot};
use crate::event_loop::sat_inc;
use crate::keyed::{id_find, id_insert, id_map, id_remove, ids_sorted, keys_sorted, table_get, table_insert, table_map, table_remove};
use crate::text::{
    chars_of, concat, eq_ignore_case, is_ws, is_ws_exec, last_index_of, last_index_of_exec,
    lower_char, lower_char_exec, occurs_at, occurs_at_exec, split, split_exec, split_once,
    split_once_exec, str_eq_ignore_case, string_from, trim, trim_chars,
};
use vstd::prelude::*;

verus! {

broadcast use vstd::string::group_string_axioms;

// ---------------------------------------------------------------------------
// Property names and declarations
// ---------------------------------------------------------------------------

/// The normalized form of one character of a property name at `idx`:
/// upper-case letters become a hyphen (except first) and the lower-case
/// letter, underscores become hyphens.
pub open spec fn css_piece(c: char, idx: int) -> Seq<char> {
    if 'A' <= c && c <= 'Z' {
        if idx > 0 {
            seq!['-', lower_char(c)]
        } else {
            seq![lower_char(c)]
        }
    } else if c == '_' {
        seq!['-']
    } else {
        seq![c]
    }
}

/// Normalized characters of a trimmed property name.
pub open spec fn css_name_chars(t: Seq<char>) -> Seq<char>
    decreases t.len(),
{
    if t.len() == 0 {
        Seq::empty()
    } else {
        css_name_chars(t.drop_last()) + css_piece(t.last(), t.len() - 1)
    }
}

/// The normalized property name: trimmed, camelCase to kebab-case,
/// underscores to hyphens.
pub open spec fn css_property(name: Seq<char>) -> Seq<char> {
    css_name_chars(trim(name))
}

/// Normalizes a CSS property name.
pub fn normalize_css_property(name: &[char]) -> (r: Vec<char>)
    ensures
        r@ == css_property(name@),
{
    let t = trim_chars(name);
    let mut out: Vec<char> = Vec::new();
    let mut i: usize = 0;
    while i < t.len()
        invariant
            i <= t@.len(),
            out@ == css_name_chars(t@.take(i as int)),
        decreases t.len() - i,
    {
        assert(t@.take(i as int + 1).drop_last() =~= t@.take(i as int));
        let c = t[i];
        if 'A' <= c && c <= 'Z' {
            if i > 0 {
                out.push('-');
            }
            out.push(lower_char_exec(c));
        } else if c == '_' {
            out.push('-');
        } else {
            out.push(c);
        }
        i = i + 1;
        assert(out@ =~= css_name_chars(t@.take(i as int)));
    }
    assert(t@.take(i as int) =~= t@);
    out
}

/// One declaration `name: value`: the normalized name (non-empty) and the
/// trimmed value.
pub open spec fn parse_declaration(part: Seq<char>) -> Option<(Seq<char>, Seq<char>)> {
    match split_once(part, seq![':']) {
        Some((n, v)) => if css_property(n).len() > 0 {
            Some((css_property(n), trim(v)))
        } else {
            None
        },
        None => None,
    }
}

/// Declarations in order; a later one replaces an earlier one of the same name.
pub open spec fn declaration_map(parts: Seq<Seq<char>>) -> Map<Seq<char>, Seq<char>>
    decreases parts.len(),
{
    if parts.len() == 0 {
        Map::empty()
    } else {
        let m = declaration_map(parts.drop_last());
        match parse_declaration(parts.last()) {
            Some((n, v)) => m.insert(n, v),
            None => m,
        }
    }
}

/// The declarations of a style text: `;`-separated `name: value` pairs.
pub open spec fn style_declarations(css: Seq<char>) -> Map<Seq<char>, Seq<char>> {
    declaration_map(split(css, ';'))
}

/// Map view of a declaration table.
pub open spec fn decl_view(t: Seq<(String, String)>) -> Map<Seq<char>, Seq<char>> {
    table_map(t).map_values(|s: String| s@)
}

/// Parses style declarations into a table sorted by name.
pub fn parse_style_declarations(css: &[char]) -> (r: Vec<(String, String)>)
    ensures
        keys_sorted(r@),
        decl_view(r@) == style_declarations(css@),
{
    let parts = split_exec(css, ';');
    let ghost ps = split(css@, ';');
    let mut r: Vec<(String, String)> = Vec::new();
    proof {
        crate::keyed::lemma_table_empty(r@);
        assert(decl_view(r@) =~= declaration_map(ps.take(0)));
    }
    let colon: Vec<char> = vec![':'];
    assert(colon@ =~= seq![':']);
    let mut i: usize = 0;
    while i < parts.len()
        invariant
            i <= parts@.len(),
            parts@.len() == ps.len(),
            forall|k: int| 0 <= k < parts@.len() ==> #[trigger] parts@[k]@ == ps[k],
            colon@ == seq![':'],
            keys_sorted(r@),
            decl_view(r@) == declaration_map(ps.take(i as int)),
        decreases parts.len() - i,
    {
        assert(ps.take(i as int + 1).drop_last() =~= ps.take(i as int));
        let part = &parts[i];
        match split_once_exec(part.as_slice(), colon.as_slice()) {
            Some((n, v)) => {
                let name = normalize_css_property(n.as_slice());
                if name.len() > 0 {
                    let value = trim_chars(v.as_slice());
                    let ghost before = r@;
                    table_insert(&mut r, string_from(name.as_slice()), string_from(value.as_slice()));
                    proof {
                        assert(decl_view(r@) =~= decl_view(before).insert(name@, value@));
                    }
                }
            },
            None => {},
        }
        i = i + 1;
    }
    assert(ps.take(i as int) =~= ps);
    r
}

/// `name: value;`.
pub open spec fn declaration_text(name: Seq<char>, value: Seq<char>) -> Seq<char> {
    name + ": "@ + value + ";"@
}

/// A declaration table as text, entries joined by a space.
pub open spec fn serialize_table(t: Seq<(String, String)>) -> Seq<char>
    decreases t.len(),
{
    if t.len() == 0 {
        Seq::empty()
    } else if t.len() == 1 {
        declaration_text(t[0].0@, t[0].1@)
    } else {
        serialize_table(t.drop_last()) + " "@ + declaration_text(t.last().0@, t.last().1@)
    }
}

/// Serializes a declaration table in its order.
pub fn serialize_style_declarations(t: &Vec<(String, String)>) -> (r: String)
    ensures
        r@ == serialize_table(t@),
{
    let mut r = String::new();
    let mut i: usize = 0;
    while i < t.len()
        invariant
            i <= t@.len(),
            r@ == serialize_table(t@.take(i as int)),
        decreases t.len() - i,
    {
        assert(t@.take(i as int + 1).drop_last() =~= t@.take(i as int));
        if i > 0 {
            crate::text::append_str(&mut r, " ");
        }
        crate::text::append_str(&mut r, t[i].0.as_str());
        crate::text::append_str(&mut r, ": ");
        crate::text::append_str(&mut r, t[i].1.as_str());
        crate::text::append_str(&mut r, ";");
        i = i + 1;
        assert(r@ =~= serialize_table(t@.take(i as int)));
    }
    assert(t@.take(i as int) =~= t@);
    r
}

/// A parsed rule: the trimmed selector before the first `{`, the
/// declarations up to the last `}`, and the trimmed text.
pub open spec fn parse_rule_spec(rule: Seq<char>) -> Option<(Seq<char>, Map<Seq<char>, Seq<char>>, Seq<char>)> {
    match split_once(rule, seq!['{']) {
        Some((selector, rest)) => match last_index_of(rest, '}') {
            Some(k) => Some((trim(selector), style_declarations(rest.take(k)), trim(rule))),
            None => None,
        },
        None => None,
    }
}

// ---------------------------------------------------------------------------
// Invalidation and defaults
// ---------------------------------------------------------------------------

/// Style invalidation type.
#[derive(Debug, Clone, Copy, PartialEq, Eq, Structural)]
pub enum StyleInvalidationKind {
    /// Color/text-only repaint.
    Paint,
    /// Layout-affecting change.
    Layout,
    /// Selector/class/rule change.
    StyleRecalc,
}

/// Properties whose change needs layout.
pub open spec fn is_layout_property(n: Seq<char>) -> bool {
    n == "width"@ || n == "height"@ || n == "min-width"@ || n == "max-width"@ || n == "min-height"@
        || n == "max-height"@ || n == "margin"@ || n == "margin-top"@ || n == "margin-right"@
        || n == "margin-bottom"@ || n == "margin-left"@ || n == "padding"@ || n == "padding-top"@
        || n == "padding-right"@ || n == "padding-bottom"@ || n == "padding-left"@ || n == "border"@
        || n == "border-width"@ || n == "font-size"@ || n == "display"@ || n == "position"@
        || n == "top"@ || n == "right"@ || n == "bottom"@ || n == "left"@
}

/// The invalidation a change of the (normalized) property causes. Class,
/// id and rule changes (`insertRule`/`deleteRule`, which normalize to
/// `insert-rule`/`delete-rule`) need a style recalculation.
pub open spec fn invalidation_kind(property: Seq<char>) -> StyleInvalidationKind {
    let n = css_property(property);
    if is_layout_property(n) {
        StyleInvalidationKind::Layout
    } else if n == "class"@ || n == "id"@ || n == "insert-rule"@ || n == "delete-rule"@ {
        StyleInvalidationKind::StyleRecalc
    } else {
        StyleInvalidationKind::Paint
    }
}

fn lit_in(v: &[char], lits: &[&str]) -> (r: bool)
    ensures
        r == exists|i: int| 0 <= i < lits@.len() && v@ == (#[trigger] lits@[i])@,
{
    let mut i: usize = 0;
    while i < lits.len()
        invariant
            i <= lits@.len(),
            forall|j: int| 0 <= j < i ==> v@ != (#[trigger] lits@[j])@,
        decreases lits.len() - i,
    {
        if crate::text::is_lit(v, lits[i]) {
            return true;
        }
        i = i + 1;
    }
    false
}

/// The invalidation a change of the property causes.
pub fn invalidation_for_property(property: &[char]) -> (k: StyleInvalidationKind)
    ensures
        k == invalidation_kind(property@),
{
    let n = normalize_css_property(property);
    let layout: [&str; 25] = [
        "width",
        "height",
        "min-width",
        "max-width",
        "min-height",
        "max-height",
        "margin",
        "margin-top",
        "margin-right",
        "margin-bottom",
        "margin-left",
        "padding",
        "padding-top",
        "padding-right",
        "padding-bottom",
        "padding-left",
        "border",
        "border-width",
        "font-size",
        "display",
        "position",
        "top",
        "right",
        "bottom",
        "left",
    ];
    let recalc: [&str; 4] = ["class", "id", "insert-rule", "delete-rule"];
    let is_layout = lit_in(n.as_slice(), &layout);
    proof {
        if is_layout_property(n@) {
            assert(exists|i: int| 0 <= i < 25 && n@ == (#[trigger] layout@[i])@) by {
                if n@ == "width"@ { assert(n@ == layout@[0]@); }
                else if n@ == "height"@ { assert(n@ == layout@[1]@); }
                else if n@ == "min-width"@ { assert(n@ == layout@[2]@); }
                else if n@ == "max-width"@ { assert(n@ == layout@[3]@); }
                else if n@ == "min-height"@ { assert(n@ == layout@[4]@); }
                else if n@ == "max-height"@ { assert(n@ == layout@[5]@); }
                else if n@ == "margin"@ { assert(n@ == layout@[6]@); }
                else if n@ == "margin-top"@ { assert(n@ == layout@[7]@); }
                else if n@ == "margin-right"@ { assert(n@ == layout@[8]@); }
                else if n@ == "margin-bottom"@ { assert(n@ == layout@[9]@); }
                else if n@ == "margin-left"@ { assert(n@ == layout@[10]@); }
                else if n@ == "padding"@ { assert(n@ == layout@[11]@); }
                else if n@ == "padding-top"@ { assert(n@ == layout@[12]@); }
                else if n@ == "padding-right"@ { assert(n@ == layout@[13]@); }
                else if n@ == "padding-bottom"@ { assert(n@ == layout@[14]@); }
                else if n@ == "padding-left"@ { assert(n@ == layout@[15]@); }
                else if n@ == "border"@ { assert(n@ == layout@[16]@); }
                else if n@ == "border-width"@ { assert(n@ == layout@[17]@); }
                else if n@ == "font-size"@ { assert(n@ == layout@[18]@); }
                else if n@ == "display"@ { assert(n@ == layout@[19]@); }
                else if n@ == "position"@ { assert(n@ == layout@[20]@); }
                else if n@ == "top"@ { assert(n@ == layout@[21]@); }
                else if n@ == "right"@ { assert(n@ == layout@[22]@); }
                else if n@ == "bottom"@ { assert(n@ == layout@[23]@); }
                else { assert(n@ == layout@[24]@); }
            }
        }
    }
    if is_layout {
        return StyleInvalidationKind::Layout;
    }
    let is_recalc = lit_in(n.as_slice(), &recalc);
    proof {
        if n@ == "class"@ { assert(n@ == recalc@[0]@); }
        if n@ == "id"@ { assert(n@ == recalc@[1]@); }
        if n@ == "insert-rule"@ { assert(n@ == recalc@[2]@); }
        if n@ == "delete-rule"@ { assert(n@ == recalc@[3]@); }
    }
    if is_recalc {
        StyleInvalidationKind::StyleRecalc
    } else {
        StyleInvalidationKind::Paint
    }
}


/// The computed value of a property no rule sets.
pub open spec fn default_computed(p: Seq<char>) -> Option<Seq<char>> {
    if p == "display"@ {
        Some("block"@)
    } else if p == "position"@ {
        Some("static"@)
    } else if p == "color"@ {
        Some("rgb(0, 0, 0)"@)
    } else if p == "background-color"@ || p == "background"@ {
        Some("transparent"@)
    } else if p == "font-size"@ {
        Some("16px"@)
    } else if p == "margin"@ || p == "padding"@ || p == "border-width"@ {
        Some("0px"@)
    } else {
        None
    }
}

fn default_computed_value(p: &[char]) -> (r: Option<String>)
    ensures
        opt_string_view(r) == default_computed(p@),
{
    if crate::text::is_lit(p, "display") {
        Some(crate::text::owned("block"))
    } else if crate::text::is_lit(p, "position") {
        Some(crate::text::owned("static"))
    } else if crate::text::is_lit(p, "color") {
        Some(crate::text::owned("rgb(0, 0, 0)"))
    } else if crate::text::is_lit(p, "background-color") || crate::text::is_lit(p, "background") {
        Some(crate::text::owned("transparent"))
    } else if crate::text::is_lit(p, "font-size") {
        Some(crate::text::owned("16px"))
    } else if crate::text::is_lit(p, "margin") || crate::text::is_lit(p, "padding")
        || crate::text::is_lit(p, "border-width") {
        Some(crate::text::owned("0px"))
    } else {
        None
    }
}

/// View of an optional string.
pub open spec fn opt_string_view(s: Option<String>) -> Option<Seq<char>> {
    match s {
        Some(v) => Some(v@),
        None => None,
    }
}

// ---------------------------------------------------------------------------
// Selectors
// ---------------------------------------------------------------------------

/// `t` stands in `v` at `i` as a whole whitespace-separated entry.
pub open spec fn ws_token_at(v: Seq<char>, t: Seq<char>, i: int) -> bool {
    &&& occurs_at(v, t, i)
    &&& (i == 0 || is_ws(v[i - 1]))
    &&& (i + t.len() == v.len() || is_ws(v[i + t.len()]))
}

/// `t` is one of the whitespace-separated entries of `v`
/// (`v.split_whitespace().any(|e| e == t)`).
pub open spec fn has_ws_token(v: Seq<char>, t: Seq<char>) -> bool {
    &&& t.len() > 0
    &&& forall|k: int| 0 <= k < t.len() ==> !is_ws(#[trigger] t[k])
    &&& exists|i: int| 0 <= i <= v.len() && #[trigger] ws_token_at(v, t, i)
}

/// Whether a class attribute lists the class.
pub open spec fn class_listed(value: Option<Seq<char>>, class: Seq<char>) -> bool {
    match value {
        Some(v) => has_ws_token(v, class),
        None => false,
    }
}

/// Whether `v` lists `t` as a whitespace-separated entry.
pub fn has_token(v: &[char], t: &[char]) -> (r: bool)
    ensures
        r == has_ws_token(v@, t@),
{
    if t.len() == 0 {
        return false;
    }
    let mut k: usize = 0;
    while k < t.len()
        invariant
            k <= t@.len(),
            forall|j: int| 0 <= j < k ==> !is_ws(#[trigger] t@[j]),
        decreases t.len() - k,
    {
        if is_ws_exec(t[k]) {
            assert(!has_ws_token(v@, t@));
            return false;
        }
        k = k + 1;
    }
    let mut i: usize = 0;
    while i < v.len()
        invariant
            i <= v@.len(),
            t@.len() > 0,
            forall|j: int| 0 <= j < t@.len() ==> !is_ws(#[trigger] t@[j]),
            forall|j: int| 0 <= j < i ==> !ws_token_at(v@, t@, j),
        decreases v.len() - i,
    {
        if occurs_at_exec(v, t, i) {
            let before = i == 0 || is_ws_exec(v[i - 1]);
            let after = i + t.len() == v.len() || is_ws_exec(v[i + t.len()]);
            if before && after {
                assert(ws_token_at(v@, t@, i as int));
                return true;
            }
        }
        i = i + 1;
    }
    proof {
        assert forall|j: int| 0 <= j <= v@.len() implies !#[trigger] ws_token_at(v@, t@, j) by {
            if j == v@.len() {
                assert(!occurs_at(v@, t@, j));
            }
        }
    }
    false
}

/// Whether a CSSOM selector matches a node snapshot: `#id`, `.class`,
/// `tag.class`, `tag#id` or `tag`, tags compared without ASCII case.
pub open spec fn snapshot_matches(s: DomNodeSnapshot, selector: Seq<char>) -> bool {
    let sel = trim(selector);
    if sel.len() == 0 {
        false
    } else if sel[0] == '#' {
        attr_lookup(s.attributes@, "id"@) == Some(sel.drop_first())
    } else if sel[0] == '.' {
        class_listed(attr_lookup(s.attributes@, "class"@), sel.drop_first())
    } else {
        match split_once(sel, seq!['.']) {
            Some((tag, class)) => eq_ignore_case(s.tag_name@, tag) && class_listed(
                attr_lookup(s.attributes@, "class"@),
                class,
            ),
            None => match split_once(sel, seq!['#']) {
                Some((tag, id)) => eq_ignore_case(s.tag_name@, tag) && attr_lookup(
                    s.attributes@,
                    "id"@,
                ) == Some(id),
                None => eq_ignore_case(s.tag_name@, sel),
            },
        }
    }
}

fn class_attr_lists(s: &DomNodeSnapshot, class: &[char]) -> (r: bool)
    ensures
        r == class_listed(attr_lookup(s.attributes@, "class"@), class@),
{
    match attr_get(&s.attributes, "class") {
        Some(v) => {
            let vv = chars_of(v.as_str());
            has_token(vv.as_slice(), class)
        },
        None => false,
    }
}

fn id_attr_is(s: &DomNodeSnapshot, id: &[char]) -> (r: bool)
    ensures
        r == (attr_lookup(s.attributes@, "id"@) == Some(id@)),
{
    match attr_get(&s.attributes, "id") {
        Some(v) => {
            let vv = chars_of(v.as_str());
            crate::text::chars_eq(vv.as_slice(), id)
        },
        None => false,
    }
}

fn tag_is(s: &DomNodeSnapshot, tag: &[char]) -> (r: bool)
    ensures
        r == eq_ignore_case(s.tag_name@, tag@),
{
    let t = string_from(tag);
    str_eq_ignore_case(s.tag_name.as_str(), t.as_str())
}

/// Whether a CSSOM selector matches a node snapshot.
pub fn selector_matches_snapshot(s: &DomNodeSnapshot, selector: &str) -> (r: bool)
    ensures
        r == snapshot_matches(*s, selector@),
{
    let v = chars_of(selector);
    let sel = trim_chars(v.as_slice());
    if sel.len() == 0 {
        return false;
    }
    if sel[0] == '#' {
        let rest = crate::text::slice_vec(sel.as_slice(), 1, sel.len());
        assert(rest@ =~= sel@.drop_first());
        return id_attr_is(s, rest.as_slice());
    }
    if sel[0] == '.' {
        let rest = crate::text::slice_vec(sel.as_slice(), 1, sel.len());
        assert(rest@ =~= sel@.drop_first());
        return class_attr_lists(s, rest.as_slice());
    }
    let dot: Vec<char> = vec!['.'];
    assert(dot@ =~= seq!['.']);
    match split_once_exec(sel.as_slice(), dot.as_slice()) {
        Some((tag, class)) => {
            return tag_is(s, tag.as_slice()) && class_attr_lists(s, class.as_slice());
        },
        None => {},
    }
    let hash: Vec<char> = vec!['#'];
    assert(hash@ =~= seq!['#']);
    match split_once_exec(sel.as_slice(), hash.as_slice()) {
        Some((tag, id)) => tag_is(s, tag.as_slice()) && id_attr_is(s, id.as_slice()),
        None => tag_is(s, sel.as_slice()),
    }
}


/// Parses a rule `selector { declarations }`.
pub fn parse_rule(rule: &str) -> (r: Option<CssRuleRecord>)
    ensures
        match r {
            Some(rec) => {
                &&& parse_rule_spec(rule@) is Some
                &&& rec.id == 0
                &&& rec.selector@ == parse_rule_spec(rule@)->Some_0.0
                &&& decl_view(rec.declarations@) == parse_rule_spec(rule@)->Some_0.1
                &&& rec.css_text@ == parse_rule_spec(rule@)->Some_0.2
                &&& keys_sorted(rec.declarations@)
            },
            None => parse_rule_spec(rule@) is None,
        },
{
    let v = chars_of(rule);
    let brace: Vec<char> = vec!['{'];
    assert(brace@ =~= seq!['{']);
    match split_once_exec(v.as_slice(), brace.as_slice()) {
        None => None,
        Some((selector, rest)) => match last_index_of_exec(rest.as_slice(), '}') {
            None => None,
            Some(k) => {
                proof {
                    crate::text::lemma_last_index_of(rest@, '}');
                }
                let body = crate::text::slice_vec(rest.as_slice(), 0, k);
                assert(body@ =~= rest@.take(k as int));
                let declarations = parse_style_declarations(body.as_slice());
                let sel = trim_chars(selector.as_slice());
                let text = trim_chars(v.as_slice());
                Some(
                    CssRuleRecord {
                        id: 0,
                        selector: string_from(sel.as_slice()),
                        declarations,
                        css_text: string_from(text.as_slice()),
                    },
                )
            },
        },
    }
}

// ---------------------------------------------------------------------------
// Records
// ---------------------------------------------------------------------------

/// CSSOM metrics.
#[derive(Debug, Clone, Copy, PartialEq, Eq, Structural)]
pub struct CssomMetrics {
    /// Inline style reads.
    pub inline_reads: u64,
    /// Inline style writes.
    pub inline_writes: u64,
    /// Inline style removals.
    pub inline_removals: u64,
    /// Computed style reads.
    pub computed_reads: u64,
    /// Stylesheet reads.
    pub stylesheet_reads: u64,
    /// Rules inserted.
    pub rules_inserted: u64,
    /// Rules deleted.
    pub rules_deleted: u64,
    /// Invalidation events.
    pub invalidations: u64,
}

/// All counters zero.
pub open spec fn zero_cssom_metrics() -> CssomMetrics {
    CssomMetrics {
        inline_reads: 0,
        inline_writes: 0,
        inline_removals: 0,
        computed_reads: 0,
        stylesheet_reads: 0,
        rules_inserted: 0,
        rules_deleted: 0,
        invalidations: 0,
    }
}

impl Default for CssomMetrics {
    fn default() -> (m: Self)
        ensures
            m == zero_cssom_metrics(),
    {
        Self {
            inline_reads: 0,
            inline_writes: 0,
            inline_removals: 0,
            computed_reads: 0,
            stylesheet_reads: 0,
            rules_inserted: 0,
            rules_deleted: 0,
            invalidations: 0,
        }
    }
}

/// Style mutation record.
#[derive(Debug, Clone, PartialEq, Eq)]
pub struct CssStyleMutation {
    /// Target node.
    pub node: Option<DomNodeRef>,
    /// Property name.
    pub property: String,
    /// New value.
    pub value: Option<String>,
    /// Invalidation kind.
    pub invalidation: StyleInvalidationKind,
}

/// Model of a style mutation.
pub struct MutationView {
    pub node: Option<DomNodeRef>,
    pub property: Seq<char>,
    pub value: Option<Seq<char>>,
    pub invalidation: StyleInvalidationKind,
}

impl View for CssStyleMutation {
    type V = MutationView;

    open spec fn view(&self) -> MutationView {
        MutationView {
            node: self.node,
            property: self.property@,
            value: opt_string_view(self.value),
            invalidation: self.invalidation,
        }
    }
}

/// Views of a list of mutations.
pub open spec fn mutation_views(s: Seq<CssStyleMutation>) -> Seq<MutationView> {
    s.map_values(|m: CssStyleMutation| m@)
}

/// The record of a change: its invalidation follows from the property.
pub open spec fn mutation_of(node: Option<DomNodeRef>, property: Seq<char>, value: Option<Seq<char>>) -> MutationView {
    MutationView { node, property, value, invalidation: invalidation_kind(property) }
}

/// CSS rule record.
#[derive(Debug, Clone, PartialEq, Eq)]
pub struct CssRuleRecord {
    /// Rule id within stylesheet.
    pub id: u64,
    /// Selector text.
    pub selector: String,
    /// Declarations, sorted by name.
    pub declarations: Vec<(String, String)>,
    /// Raw css text.
    pub css_text: String,
}

/// Model of a rule.
pub struct RuleView {
    pub id: u64,
    pub selector: Seq<char>,
    pub declarations: Map<Seq<char>, Seq<char>>,
    pub css_text: Seq<char>,
}

impl View for CssRuleRecord {
    type V = RuleView;

    open spec fn view(&self) -> RuleView {
        RuleView {
            id: self.id,
            selector: self.selector@,
            declarations: decl_view(self.declarations@),
            css_text: self.css_text@,
        }
    }
}

/// Views of a list of rules.
pub open spec fn rule_views(s: Seq<CssRuleRecord>) -> Seq<RuleView> {
    s.map_values(|r: CssRuleRecord| r@)
}

pub(crate) fn copy_pairs(v: &Vec<(String, String)>) -> (r: Vec<(String, String)>)
    ensures
        r@ == v@,
{
    let mut r: Vec<(String, String)> = Vec::new();
    let mut i: usize = 0;
    while i < v.len()
        invariant
            i <= v@.len(),
            r@ == v@.take(i as int),
        decreases v.len() - i,
    {
        r.push((v[i].0.clone(), v[i].1.clone()));
        i = i + 1;
        assert(r@ =~= v@.take(i as int));
    }
    assert(v@.take(v.len() as int) =~= v@);
    r
}

impl CssRuleRecord {
    fn copy(&self) -> (c: Self)
        ensures
            c@ == self@,
            c.declarations@ == self.declarations@,
    {
        Self {
            id: self.id,
            selector: self.selector.clone(),
            declarations: copy_pairs(&self.declarations),
            css_text: self.css_text.clone(),
        }
    }
}

/// Stylesheet record.
#[derive(Debug, Clone, PartialEq, Eq)]
pub struct CssStyleSheetRecord {
    /// Sheet id.
    pub id: u64,
    /// Rules.
    pub rules: Vec<CssRuleRecord>,
}

/// Model of a stylesheet.
pub struct SheetView {
    pub id: u64,
    pub rules: Seq<RuleView>,
}

impl View for CssStyleSheetRecord {
    type V = SheetView;

    open spec fn view(&self) -> SheetView {
        SheetView { id: self.id, rules: rule_views(self.rules@) }
    }
}

/// Views of a list of stylesheets.
pub open spec fn sheet_views(s: Seq<CssStyleSheetRecord>) -> Seq<SheetView> {
    s.map_values(|x: CssStyleSheetRecord| x@)
}

/// Declarations of every rule are sorted by name.
pub open spec fn rules_sorted(rules: Seq<CssRuleRecord>) -> bool {
    forall|i: int| 0 <= i < rules.len() ==> keys_sorted(#[trigger] rules[i].declarations@)
}

impl CssStyleSheetRecord {
    fn copy(&self) -> (c: Self)
        ensures
            c@ == self@,
            rules_sorted(self.rules@) ==> rules_sorted(c.rules@),
    {
        let mut rules: Vec<CssRuleRecord> = Vec::new();
        let mut i: usize = 0;
        while i < self.rules.len()
            invariant
                i <= self.rules@.len(),
                rules@.len() == i,
                forall|k: int| 0 <= k < i ==> (#[trigger] rules@[k])@ == self.rules@[k]@ && rules@[k].declarations@
                    == self.rules@[k].declarations@,
            decreases self.rules.len() - i,
        {
            rules.push(self.rules[i].copy());
            i = i + 1;
        }
        assert(rule_views(rules@) =~= rule_views(self.rules@));
        Self { id: self.id, rules }
    }
}


// ---------------------------------------------------------------------------
// The CSSOM host
// ---------------------------------------------------------------------------

/// CSSOM host abstraction.
pub trait CssomHost {
    /// Gets inline style property.
    fn inline_style_get(&mut self, node: DomNodeRef, property: &str) -> Option<String>;

    /// Sets inline style property.
    fn inline_style_set(&mut self, node: DomNodeRef, property: &str, value: String);

    /// Removes inline style property.
    fn inline_style_remove(&mut self, node: DomNodeRef, property: &str);

    /// Returns full inline css text.
    fn inline_style_css_text(&mut self, node: DomNodeRef) -> String;

    /// Replaces full inline css text.
    fn inline_style_set_css_text(&mut self, node: DomNodeRef, css_text: String);

    /// Returns computed style property.
    fn computed_style_get<C, D: DomHost<C>>(&mut self, dom: &D, node: DomNodeRef, property: &str) -> Option<
        String,
    >;

    /// Inserts a stylesheet rule; returns where it went.
    fn insert_rule(&mut self, sheet_index: usize, rule: &str, index: Option<usize>) -> usize
        requires
            sheet_index < usize::MAX,
    ;

    /// Deletes a stylesheet rule.
    fn delete_rule(&mut self, sheet_index: usize, index: usize) -> bool
        requires
            sheet_index < usize::MAX,
    ;

    /// Returns stylesheet snapshot.
    fn stylesheet(&mut self, sheet_index: usize) -> CssStyleSheetRecord
        requires
            sheet_index < usize::MAX,
    ;

    /// Returns stylesheet count.
    fn stylesheet_count(&mut self) -> usize;

    /// Returns metrics.
    fn metrics(&self) -> CssomMetrics;

    /// Returns mutation records.
    fn mutations(&self) -> Vec<CssStyleMutation>;
}

/// Deterministic research CSSOM host.
#[derive(Debug)]
pub struct ResearchCssomHost {
    inline_styles: Vec<(u64, Vec<(String, String)>)>,
    sheets: Vec<CssStyleSheetRecord>,
    next_rule_id: u64,
    mutations: Vec<CssStyleMutation>,
    metrics: CssomMetrics,
}

/// Model of the CSSOM host.
pub struct CssomView {
    pub inline: Map<u64, Map<Seq<char>, Seq<char>>>,
    pub sheets: Seq<SheetView>,
    pub next_rule_id: u64,
    pub mutations: Seq<MutationView>,
    pub metrics: CssomMetrics,
}

impl View for ResearchCssomHost {
    type V = CssomView;

    closed spec fn view(&self) -> CssomView {
        CssomView {
            inline: id_map(self.inline_styles@).map_values(|t: Vec<(String, String)>| decl_view(t@)),
            sheets: sheet_views(self.sheets@),
            next_rule_id: self.next_rule_id,
            mutations: mutation_views(self.mutations@),
            metrics: self.metrics,
        }
    }
}

/// The inline value of a property of a node.
pub open spec fn inline_lookup(v: CssomView, node: DomNodeRef, p: Seq<char>) -> Option<Seq<char>> {
    if v.inline.dom().contains(node.0) && v.inline[node.0].dom().contains(p) {
        Some(v.inline[node.0][p])
    } else {
        None
    }
}

/// A recorded change: one more mutation and one more invalidation.
pub open spec fn with_mutation(v: CssomView, m: MutationView) -> CssomView {
    CssomView {
        mutations: v.mutations.push(m),
        metrics: CssomMetrics { invalidations: sat_inc(v.metrics.invalidations), ..v.metrics },
        ..v
    }
}

/// Stylesheets after making sure sheet `index` exists: missing sheets are
/// appended empty, numbered by position.
pub open spec fn ensured_sheets(s: Seq<SheetView>, index: nat) -> Seq<SheetView> {
    if s.len() > index {
        s
    } else {
        s + Seq::new(
            (index + 1 - s.len()) as nat,
            |j: int| SheetView { id: (s.len() + j) as u64, rules: Seq::empty() },
        )
    }
}

/// The rule an insertion stores: the parsed rule, or for text that does not
/// parse, an empty selector with no declarations keeping the raw text.
pub open spec fn inserted_rule(rule: Seq<char>, id: u64) -> RuleView {
    match parse_rule_spec(rule) {
        Some((selector, declarations, css_text)) => RuleView { id, selector, declarations, css_text },
        None => RuleView { id, selector: Seq::empty(), declarations: Map::empty(), css_text: rule },
    }
}

/// Where an insertion lands: the requested index held within the rules,
/// or the end.
pub open spec fn insert_position(index: Option<usize>, len: nat) -> nat {
    match index {
        Some(i) => if i < len {
            i as nat
        } else {
            len
        },
        None => len,
    }
}

/// The last rule of a list matching the node that declares the property.
pub open spec fn cascade_rules(rules: Seq<RuleView>, s: DomNodeSnapshot, p: Seq<char>) -> Option<Seq<char>>
    decreases rules.len(),
{
    if rules.len() == 0 {
        None
    } else if snapshot_matches(s, rules.last().selector) && rules.last().declarations.dom().contains(p) {
        Some(rules.last().declarations[p])
    } else {
        cascade_rules(rules.drop_last(), s, p)
    }
}

/// The cascade over stylesheets in order: the last matching declaration wins.
pub open spec fn cascade_sheets(sheets: Seq<SheetView>, s: DomNodeSnapshot, p: Seq<char>) -> Option<Seq<char>>
    decreases sheets.len(),
{
    if sheets.len() == 0 {
        None
    } else {
        match cascade_rules(sheets.last().rules, s, p) {
            Some(x) => Some(x),
            None => cascade_sheets(sheets.drop_last(), s, p),
        }
    }
}

/// The computed value from the rules or the default, for a node snapshot.
pub open spec fn rule_value(v: CssomView, snapshot: Option<DomNodeSnapshot>, p: Seq<char>) -> Option<Seq<char>> {
    match snapshot {
        None => None,
        Some(s) => match cascade_sheets(v.sheets, s, p) {
            Some(x) => Some(x),
            None => default_computed(p),
        },
    }
}

impl ResearchCssomHost {
    #[verifier::type_invariant]
    spec fn wf(self) -> bool {
        &&& ids_sorted(self.inline_styles@)
        &&& forall|k: u64| #[trigger]
            id_map(self.inline_styles@).dom().contains(k) ==> keys_sorted(id_map(self.inline_styles@)[k]@)
        &&& forall|i: int| 0 <= i < self.sheets@.len() ==> rules_sorted(#[trigger] self.sheets@[i].rules@)
    }

    /// Creates a host with one empty author stylesheet.
    pub fn new() -> (h: Self)
        ensures
            h@.inline == Map::<u64, Map<Seq<char>, Seq<char>>>::empty(),
            h@.sheets == seq![SheetView { id: 0, rules: Seq::empty() }],
            h@.next_rule_id == 0,
            h@.mutations.len() == 0,
            h@.metrics == zero_cssom_metrics(),
    {
        let mut h = Self::default();
        h.ensure_sheet(0);
        assert(h@.sheets =~= seq![SheetView { id: 0, rules: Seq::empty() }]);
        h
    }

    fn ensure_sheet(&mut self, index: usize)
        requires
            index < usize::MAX,
        ensures
            final(self)@ == (CssomView { sheets: ensured_sheets(old(self)@.sheets, index as nat), ..old(self)@ }),
            final(self)@.sheets.len() > index,
    {
        proof {
            use_type_invariant(&*self);
        }
        let mut sheets: Vec<CssStyleSheetRecord> = Vec::new();
        std::mem::swap(&mut sheets, &mut self.sheets);
        let ghost s0 = sheet_views(sheets@);
        while sheets.len() <= index
            invariant
                index < usize::MAX,
                s0.len() <= sheets@.len(),
                sheets@.len() <= index + 1 || sheets@.len() == s0.len(),
                forall|i: int| 0 <= i < sheets@.len() ==> rules_sorted(#[trigger] sheets@[i].rules@),
                sheet_views(sheets@) == s0 + Seq::new(
                    (sheets@.len() - s0.len()) as nat,
                    |j: int| SheetView { id: (s0.len() + j) as u64, rules: Seq::empty() },
                ),
            decreases index + 1 - sheets@.len(),
        {
            let id = sheets.len() as u64;
            let ghost before = sheets@;
            sheets.push(CssStyleSheetRecord { id, rules: Vec::new() });
            proof {
                assert(rule_views(sheets@.last().rules@) =~= Seq::<RuleView>::empty());
                let nv = SheetView { id, rules: Seq::<RuleView>::empty() };
                assert(sheets@.last()@ == nv);
                assert(sheet_views(sheets@) =~= sheet_views(before).push(nv));
                assert(sheet_views(sheets@) =~= s0 + Seq::new(
                    (sheets@.len() - s0.len()) as nat,
                    |j: int| SheetView { id: (s0.len() + j) as u64, rules: Seq::empty() },
                ));
            }
        }
        proof {
            if s0.len() > index {
                assert(sheet_views(sheets@) =~= s0);
            }
        }
        self.sheets = sheets;
        assert(self@.sheets == ensured_sheets(old(self)@.sheets, index as nat));
        assert(self@ =~= (CssomView { sheets: ensured_sheets(old(self)@.sheets, index as nat), ..old(self)@ }));
    }

    fn record_invalidation(&mut self, node: Option<DomNodeRef>, property: String, value: Option<String>)
        ensures
            final(self)@ == with_mutation(old(self)@, mutation_of(node, property@, opt_string_view(value))),
    {
        proof {
            use_type_invariant(&*self);
        }
        let pv = chars_of(property.as_str());
        let invalidation = invalidation_for_property(pv.as_slice());
        let m = CssStyleMutation { node, property, value, invalidation };
        let ghost mv = m@;
        let mut mutations: Vec<CssStyleMutation> = Vec::new();
        std::mem::swap(&mut mutations, &mut self.mutations);
        let ghost before = mutations@;
        mutations.push(m);
        self.mutations = mutations;
        self.metrics.invalidations = self.metrics.invalidations.saturating_add(1);
        assert(mutation_views(self.mutations@) =~= mutation_views(before).push(mv));
        assert(self@ =~= with_mutation(old(self)@, mv));
    }

    fn style_value(&self, node: DomNodeRef, p: &[char]) -> (r: Option<String>)
        ensures
            opt_string_view(r) == inline_lookup(self@, node, p@),
    {
        proof {
            use_type_invariant(self);
        }
        match id_find(&self.inline_styles, node.0) {
            Ok(i) => {
                proof {
                    crate::keyed::lemma_id_entry(self.inline_styles@, i as int);
                }
                let t = &self.inline_styles[i].1;
                match table_get(t, p) {
                    Some(v) => Some(v.clone()),
                    None => None,
                }
            },
            Err(_) => None,
        }
    }

    fn take_style(&mut self, node: DomNodeRef) -> (r: Vec<(String, String)>)
        ensures
            keys_sorted(r@),
            final(self)@ == (CssomView { inline: old(self)@.inline.remove(node.0), ..old(self)@ }),
            decl_view(r@) == (if old(self)@.inline.dom().contains(node.0) {
                old(self)@.inline[node.0]
            } else {
                Map::<Seq<char>, Seq<char>>::empty()
            }),
    {
        proof {
            use_type_invariant(&*self);
        }
        let mut styles: Vec<(u64, Vec<(String, String)>)> = Vec::new();
        std::mem::swap(&mut styles, &mut self.inline_styles);
        let ghost s0 = styles@;
        let removed = id_remove(&mut styles, node.0);
        proof {
            assert forall|k: u64| #[trigger] id_map(styles@).dom().contains(k) implies keys_sorted(
                id_map(styles@)[k]@,
            ) by {
                assert(id_map(s0).dom().contains(k));
            }
        }
        self.inline_styles = styles;
        assert(self@.inline =~= old(self)@.inline.remove(node.0));
        match removed {
            Some(t) => t,
            None => {
                let t: Vec<(String, String)> = Vec::new();
                proof {
                    crate::keyed::lemma_table_empty(t@);
                    assert(decl_view(t@) =~= Map::<Seq<char>, Seq<char>>::empty());
                }
                t
            },
        }
    }

    fn put_style(&mut self, node: DomNodeRef, t: Vec<(String, String)>)
        requires
            keys_sorted(t@),
        ensures
            final(self)@ == (CssomView { inline: old(self)@.inline.insert(node.0, decl_view(t@)), ..old(self)@ }),
    {
        proof {
            use_type_invariant(&*self);
        }
        let ghost tv = t@;
        let mut styles: Vec<(u64, Vec<(String, String)>)> = Vec::new();
        std::mem::swap(&mut styles, &mut self.inline_styles);
        let ghost s0 = styles@;
        id_insert(&mut styles, node.0, t);
        proof {
            assert forall|k: u64| #[trigger] id_map(styles@).dom().contains(k) implies keys_sorted(
                id_map(styles@)[k]@,
            ) by {
                if k != node.0 {
                    assert(id_map(s0).dom().contains(k));
                }
            }
        }
        self.inline_styles = styles;
        assert(self@.inline =~= old(self)@.inline.insert(node.0, decl_view(tv)));
    }

    fn cascade(&self, s: &DomNodeSnapshot, p: &[char]) -> (r: Option<String>)
        ensures
            opt_string_view(r) == cascade_sheets(self@.sheets, *s, p@),
    {
        proof {
            use_type_invariant(self);
        }
        let ghost sv = sheet_views(self.sheets@);
        let mut found: Option<String> = None;
        let mut i: usize = 0;
        assert(sv.take(0) =~= Seq::<SheetView>::empty());
        while i < self.sheets.len()
            invariant
                i <= self.sheets@.len(),
                sv == sheet_views(self.sheets@),
                forall|k: int| 0 <= k < self.sheets@.len() ==> rules_sorted(#[trigger] self.sheets@[k].rules@),
                opt_string_view(found) == cascade_sheets(sv.take(i as int), *s, p@),
            decreases self.sheets.len() - i,
        {
            let rules = &self.sheets[i].rules;
            let ghost rv = rule_views(rules@);
            let ghost outer = opt_string_view(found);
            let mut j: usize = 0;
            assert(rv.take(0) =~= Seq::<RuleView>::empty());
            while j < rules.len()
                invariant
                    j <= rules@.len(),
                    rv == rule_views(rules@),
                    rules_sorted(rules@),
                    opt_string_view(found) == (match cascade_rules(rv.take(j as int), *s, p@) {
                        Some(x) => Some(x),
                        None => outer,
                    }),
                decreases rules.len() - j,
            {
                assert(rv.take(j as int + 1).drop_last() =~= rv.take(j as int));
                let rule = &rules[j];
                if selector_matches_snapshot(s, rule.selector.as_str()) {
                    match table_get(&rule.declarations, p) {
                        Some(v) => {
                            found = Some(v.clone());
                        },
                        None => {},
                    }
                }
                j = j + 1;
            }
            assert(rv.take(j as int) =~= rv);
            proof {
                assert(sv.take(i as int + 1).drop_last() =~= sv.take(i as int));
                assert(sv.take(i as int + 1).last() == sv[i as int]);
            }
            i = i + 1;
        }
        assert(sv.take(i as int) =~= sv);
        found
    }
}

impl Default for ResearchCssomHost {
    fn default() -> (h: Self)
        ensures
            h@.inline == Map::<u64, Map<Seq<char>, Seq<char>>>::empty(),
            h@.sheets.len() == 0,
            h@.next_rule_id == 0,
            h@.mutations.len() == 0,
            h@.metrics == zero_cssom_metrics(),
    {
        let h = Self {
            inline_styles: Vec::new(),
            sheets: Vec::new(),
            next_rule_id: 0,
            mutations: Vec::new(),
            metrics: CssomMetrics::default(),
        };
        proof {
            crate::keyed::lemma_id_empty(h.inline_styles@);
            assert(h@.inline =~= Map::<u64, Map<Seq<char>, Seq<char>>>::empty());
        }
        h
    }
}


/// An inline write: the property (normalized) set on the node's style.
pub open spec fn inline_set_effect(v: CssomView, node: DomNodeRef, property: Seq<char>, value: Seq<char>) -> CssomView {
    let p = css_property(property);
    let style = if v.inline.dom().contains(node.0) {
        v.inline[node.0]
    } else {
        Map::empty()
    };
    with_mutation(
        CssomView {
            inline: v.inline.insert(node.0, style.insert(p, value)),
            metrics: CssomMetrics { inline_writes: sat_inc(v.metrics.inline_writes), ..v.metrics },
            ..v
        },
        mutation_of(Some(node), p, Some(value)),
    )
}

/// An inline removal: the property (normalized) dropped from the node's style, if it has one.
pub open spec fn inline_remove_effect(v: CssomView, node: DomNodeRef, property: Seq<char>) -> CssomView {
    let p = css_property(property);
    with_mutation(
        CssomView {
            inline: if v.inline.dom().contains(node.0) {
                v.inline.insert(node.0, v.inline[node.0].remove(p))
            } else {
                v.inline
            },
            metrics: CssomMetrics { inline_removals: sat_inc(v.metrics.inline_removals), ..v.metrics },
            ..v
        },
        mutation_of(Some(node), p, None),
    )
}

/// A rule insertion and where the rule went.
pub open spec fn insert_rule_effect(v: CssomView, sheet_index: nat, rule: Seq<char>, index: Option<usize>) -> (
    CssomView,
    nat,
) {
    let sheets = ensured_sheets(v.sheets, sheet_index);
    let sheet = sheets[sheet_index as int];
    let at = insert_position(index, sheet.rules.len());
    let nsheet = SheetView {
        id: sheet.id,
        rules: sheet.rules.insert(at as int, inserted_rule(rule, v.next_rule_id)),
    };
    (
        with_mutation(
            CssomView {
                sheets: sheets.update(sheet_index as int, nsheet),
                next_rule_id: sat_inc(v.next_rule_id),
                metrics: CssomMetrics { rules_inserted: sat_inc(v.metrics.rules_inserted), ..v.metrics },
                ..v
            },
            mutation_of(None, "insertRule"@, Some(rule)),
        ),
        at,
    )
}

/// A rule deletion, and whether a rule was there.
pub open spec fn delete_rule_effect(v: CssomView, sheet_index: nat, index: nat) -> (CssomView, bool) {
    let sheets = ensured_sheets(v.sheets, sheet_index);
    let sheet = sheets[sheet_index as int];
    if index < sheet.rules.len() {
        (
            with_mutation(
                CssomView {
                    sheets: sheets.update(
                        sheet_index as int,
                        SheetView { id: sheet.id, rules: sheet.rules.remove(index as int) },
                    ),
                    metrics: CssomMetrics { rules_deleted: sat_inc(v.metrics.rules_deleted), ..v.metrics },
                    ..v
                },
                mutation_of(None, "deleteRule"@, None),
            ),
            true,
        )
    } else {
        (CssomView { sheets, ..v }, false)
    }
}

/// Reads one more inline value.
pub open spec fn inline_read(v: CssomView) -> CssomView {
    CssomView { metrics: CssomMetrics { inline_reads: sat_inc(v.metrics.inline_reads), ..v.metrics }, ..v }
}

/// A computed-style read: its counters and its value, the inline value
/// first, then the cascade over the node's snapshot, then the default.
pub open spec fn computed_effect(
    v: CssomView,
    node: DomNodeRef,
    property: Seq<char>,
    snapshot: Option<DomNodeSnapshot>,
) -> (CssomView, Option<Seq<char>>) {
    let p = css_property(property);
    let v1 = inline_read(
        CssomView { metrics: CssomMetrics { computed_reads: sat_inc(v.metrics.computed_reads), ..v.metrics }, ..v },
    );
    match inline_lookup(v, node, css_property(p)) {
        Some(x) => (v1, Some(x)),
        None => (v1, rule_value(v, snapshot, p)),
    }
}

impl CssomHost for ResearchCssomHost {
    fn inline_style_get(&mut self, node: DomNodeRef, property: &str) -> (r: Option<String>)
        ensures
            final(self)@ == inline_read(old(self)@),
            opt_string_view(r) == inline_lookup(old(self)@, node, css_property(property@)),
    {
        proof {
            use_type_invariant(&*self);
        }
        self.metrics.inline_reads = self.metrics.inline_reads.saturating_add(1);
        let pv = chars_of(property);
        let p = normalize_css_property(pv.as_slice());
        let r = self.style_value(node, p.as_slice());
        assert(self@ =~= inline_read(old(self)@));
        r
    }

    fn inline_style_set(&mut self, node: DomNodeRef, property: &str, value: String)
        ensures
            final(self)@ == inline_set_effect(old(self)@, node, property@, value@),
    {
        let pv = chars_of(property);
        let p = normalize_css_property(pv.as_slice());
        let mut style = self.take_style(node);
        let ghost before = style@;
        table_insert(&mut style, string_from(p.as_slice()), value.clone());
        assert(decl_view(style@) =~= decl_view(before).insert(p@, value@));
        self.put_style(node, style);
        proof {
            use_type_invariant(&*self);
        }
        self.metrics.inline_writes = self.metrics.inline_writes.saturating_add(1);
        let ghost mid = self@;
        self.record_invalidation(Some(node), string_from(p.as_slice()), Some(value));
        assert(mid.inline =~= old(self)@.inline.insert(
            node.0,
            (if old(self)@.inline.dom().contains(node.0) {
                old(self)@.inline[node.0]
            } else {
                Map::empty()
            }).insert(p@, value@),
        ));
    }

    fn inline_style_remove(&mut self, node: DomNodeRef, property: &str)
        ensures
            final(self)@ == inline_remove_effect(old(self)@, node, property@),
    {
        proof {
            use_type_invariant(&*self);
        }
        let pv = chars_of(property);
        let p = normalize_css_property(pv.as_slice());
        let present = id_find(&self.inline_styles, node.0).is_ok();
        proof {
            if present {
                let i = choose|i: int| 0 <= i < self.inline_styles@.len() && self.inline_styles@[i].0 == node.0;
                crate::keyed::lemma_id_entry(self.inline_styles@, i);
            }
        }
        if present {
            let mut style = self.take_style(node);
            let ghost before = style@;
            let _ = table_remove(&mut style, p.as_slice());
            assert(decl_view(style@) =~= decl_view(before).remove(p@));
            self.put_style(node, style);
        }
        proof {
            use_type_invariant(&*self);
        }
        self.metrics.inline_removals = self.metrics.inline_removals.saturating_add(1);
        let ghost mid = self@;
        proof {
            if present {
                assert(mid.inline =~= old(self)@.inline.insert(node.0, old(self)@.inline[node.0].remove(p@)));
            }
        }
        self.record_invalidation(Some(node), string_from(p.as_slice()), None);
    }

    fn inline_style_css_text(&mut self, node: DomNodeRef) -> (r: String)
        ensures
            final(self)@ == inline_read(old(self)@),
            old(self)@.inline.dom().contains(node.0) ==> exists|t: Seq<(String, String)>|
                keys_sorted(t) && decl_view(t) == old(self)@.inline[node.0] && r@ == serialize_table(t),
            !old(self)@.inline.dom().contains(node.0) ==> r@.len() == 0,
    {
        proof {
            use_type_invariant(&*self);
        }
        proof {
            use_type_invariant(&*self);
        }
        self.metrics.inline_reads = self.metrics.inline_reads.saturating_add(1);
        assert(self@ =~= inline_read(old(self)@));
        match id_find(&self.inline_styles, node.0) {
            Ok(i) => {
                proof {
                    crate::keyed::lemma_id_entry(self.inline_styles@, i as int);
                }
                serialize_style_declarations(&self.inline_styles[i].1)
            },
            Err(_) => String::new(),
        }
    }

    fn inline_style_set_css_text(&mut self, node: DomNodeRef, css_text: String)
        ensures
            final(self)@ == with_mutation(
                CssomView {
                    inline: old(self)@.inline.insert(node.0, style_declarations(css_text@)),
                    metrics: CssomMetrics {
                        inline_writes: sat_inc(old(self)@.metrics.inline_writes),
                        ..old(self)@.metrics
                    },
                    ..old(self)@
                },
                mutation_of(Some(node), "cssText"@, Some(css_text@)),
            ),
    {
        let cv = chars_of(css_text.as_str());
        let declarations = parse_style_declarations(cv.as_slice());
        self.put_style(node, declarations);
        proof {
            use_type_invariant(&*self);
        }
        self.metrics.inline_writes = self.metrics.inline_writes.saturating_add(1);
        self.record_invalidation(Some(node), crate::text::owned("cssText"), Some(css_text));
    }

    fn computed_style_get<C, D: DomHost<C>>(&mut self, dom: &D, node: DomNodeRef, property: &str) -> (r: Option<
        String,
    >)
        ensures
            exists|snapshot: Option<DomNodeSnapshot>|
                (final(self)@, opt_string_view(r)) == #[trigger] computed_effect(
                    old(self)@,
                    node,
                    property@,
                    snapshot,
                ),
    {
        proof {
            use_type_invariant(&*self);
        }
        self.metrics.computed_reads = self.metrics.computed_reads.saturating_add(1);
        let pv = chars_of(property);
        let p = normalize_css_property(pv.as_slice());
        let ps = string_from(p.as_slice());
        let ghost v0 = self@;
        let inline = self.inline_style_get(node, ps.as_str());
        match inline {
            Some(v) => {
                assert((self@, opt_string_view(Some(v))) == computed_effect(old(self)@, node, property@, None));
                return Some(v);
            },
            None => {},
        }
        let snapshot = dom.node_snapshot(node);
        let r = match &snapshot {
            None => None,
            Some(s) => match self.cascade(s, p.as_slice()) {
                Some(x) => Some(x),
                None => default_computed_value(p.as_slice()),
            },
        };
        assert((self@, opt_string_view(r)) == computed_effect(old(self)@, node, property@, snapshot));
        r
    }

    fn insert_rule(&mut self, sheet_index: usize, rule: &str, index: Option<usize>) -> (at: usize)
        ensures
            (final(self)@, at as nat) == insert_rule_effect(old(self)@, sheet_index as nat, rule@, index),
    {
        self.ensure_sheet(sheet_index);
        proof {
            use_type_invariant(&*self);
        }
        let ghost v1 = self@;
        let mut record = match parse_rule(rule) {
            Some(r) => r,
            None => {
                let r = CssRuleRecord {
                    id: 0,
                    selector: String::new(),
                    declarations: Vec::new(),
                    css_text: crate::text::owned(rule),
                };
                proof {
                    crate::keyed::lemma_table_empty(r.declarations@);
                    assert(decl_view(r.declarations@) =~= Map::<Seq<char>, Seq<char>>::empty());
                }
                r
            },
        };
        record.id = self.next_rule_id;
        assert(record@ == inserted_rule(rule@, v1.next_rule_id));
        let mut sheets: Vec<CssStyleSheetRecord> = Vec::new();
        std::mem::swap(&mut sheets, &mut self.sheets);
        let ghost s0 = sheets@;
        let mut sheet = sheets.remove(sheet_index);
        let len = sheet.rules.len();
        let at = match index {
            Some(i) => if i < len {
                i
            } else {
                len
            },
            None => len,
        };
        let ghost r0 = sheet.rules@;
        let ghost rec_view = record@;
        sheet.rules.insert(at, record);
        assert(rule_views(sheet.rules@) =~= rule_views(r0).insert(at as int, rec_view));
        assert(rules_sorted(sheet.rules@)) by {
            assert forall|k: int| 0 <= k < sheet.rules@.len() implies keys_sorted(
                #[trigger] sheet.rules@[k].declarations@,
            ) by {
                if k < at {
                    assert(sheet.rules@[k] == r0[k]);
                } else if k > at {
                    assert(sheet.rules@[k] == r0[k - 1]);
                }
            }
        }
        let ghost sv = sheet@;
        sheets.insert(sheet_index, sheet);
        proof {
            assert(sheet_views(sheets@) =~= sheet_views(s0).update(sheet_index as int, sv));
            assert forall|k: int| 0 <= k < sheets@.len() implies rules_sorted(#[trigger] sheets@[k].rules@) by {
                if k != sheet_index {
                    assert(sheets@[k] == s0[k]);
                }
            }
        }
        self.sheets = sheets;
        self.next_rule_id = self.next_rule_id.saturating_add(1);
        proof {
            use_type_invariant(&*self);
        }
        self.metrics.rules_inserted = self.metrics.rules_inserted.saturating_add(1);
        self.record_invalidation(None, crate::text::owned("insertRule"), Some(crate::text::owned(rule)));
        at
    }

    fn delete_rule(&mut self, sheet_index: usize, index: usize) -> (r: bool)
        ensures
            (final(self)@, r) == delete_rule_effect(old(self)@, sheet_index as nat, index as nat),
    {
        self.ensure_sheet(sheet_index);
        proof {
            use_type_invariant(&*self);
        }
        if index >= self.sheets[sheet_index].rules.len() {
            return false;
        }
        let mut sheets: Vec<CssStyleSheetRecord> = Vec::new();
        std::mem::swap(&mut sheets, &mut self.sheets);
        let ghost s0 = sheets@;
        let mut sheet = sheets.remove(sheet_index);
        let ghost r0 = sheet.rules@;
        let _ = sheet.rules.remove(index);
        assert(rule_views(sheet.rules@) =~= rule_views(r0).remove(index as int));
        assert(rules_sorted(sheet.rules@)) by {
            assert forall|k: int| 0 <= k < sheet.rules@.len() implies keys_sorted(
                #[trigger] sheet.rules@[k].declarations@,
            ) by {
                if k < index {
                    assert(sheet.rules@[k] == r0[k]);
                } else {
                    assert(sheet.rules@[k] == r0[k + 1]);
                }
            }
        }
        let ghost sv = sheet@;
        sheets.insert(sheet_index, sheet);
        proof {
            assert(sheet_views(sheets@) =~= sheet_views(s0).update(sheet_index as int, sv));
            assert forall|k: int| 0 <= k < sheets@.len() implies rules_sorted(#[trigger] sheets@[k].rules@) by {
                if k != sheet_index {
                    assert(sheets@[k] == s0[k]);
                }
            }
        }
        self.sheets = sheets;
        proof {
            use_type_invariant(&*self);
        }
        self.metrics.rules_deleted = self.metrics.rules_deleted.saturating_add(1);
        self.record_invalidation(None, crate::text::owned("deleteRule"), None);
        true
    }

    fn stylesheet(&mut self, sheet_index: usize) -> (r: CssStyleSheetRecord)
        ensures
            final(self)@ == (CssomView {
                sheets: ensured_sheets(old(self)@.sheets, sheet_index as nat),
                metrics: CssomMetrics {
                    stylesheet_reads: sat_inc(old(self)@.metrics.stylesheet_reads),
                    ..old(self)@.metrics
                },
                ..old(self)@
            }),
            r@ == ensured_sheets(old(self)@.sheets, sheet_index as nat)[sheet_index as int],
    {
        self.ensure_sheet(sheet_index);
        proof {
            use_type_invariant(&*self);
        }
        self.metrics.stylesheet_reads = self.metrics.stylesheet_reads.saturating_add(1);
        self.sheets[sheet_index].copy()
    }

    fn stylesheet_count(&mut self) -> (n: usize)
        ensures
            final(self)@ == (CssomView { sheets: ensured_sheets(old(self)@.sheets, 0), ..old(self)@ }),
            n == ensured_sheets(old(self)@.sheets, 0).len(),
    {
        self.ensure_sheet(0);
        self.sheets.len()
    }

    fn metrics(&self) -> (m: CssomMetrics)
        ensures
            m == self@.metrics,
    {
        self.metrics
    }

    fn mutations(&self) -> (r: Vec<CssStyleMutation>)
        ensures
            mutation_views(r@) == self@.mutations,
    {
        let mut r: Vec<CssStyleMutation> = Vec::new();
        let mut i: usize = 0;
        while i < self.mutations.len()
            invariant
                i <= self.mutations@.len(),
                r@.len() == i,
                forall|k: int| 0 <= k < i ==> (#[trigger] r@[k])@ == self.mutations@[k]@,
            decreases self.mutations.len() - i,
        {
            let m = &self.mutations[i];
            r.push(
                CssStyleMutation {
                    node: m.node,
                    property: m.property.clone(),
                    value: match &m.value {
                        Some(v) => Some(v.clone()),
                        None => None,
                    },
                    invalidation: m.invalidation,
                },
            );
            i = i + 1;
        }
        assert(mutation_views(r@) =~= mutation_views(self.mutations@));
        r
    }
}


// ---------------------------------------------------------------------------
// Laws
// ---------------------------------------------------------------------------

/// An inline style write is read back under the same property name.
pub proof fn lemma_inline_set_then_get(v: CssomView, node: DomNodeRef, property: Seq<char>, value: Seq<char>)
    ensures
        inline_lookup(inline_set_effect(v, node, property, value), node, css_property(property)) == Some(value),
{
}

/// After an inline removal the property reads as unset.
pub proof fn lemma_inline_remove_then_get(v: CssomView, node: DomNodeRef, property: Seq<char>)
    ensures
        inline_lookup(inline_remove_effect(v, node, property), node, css_property(property)) is None,
{
}

/// An inline value wins over every rule: a computed read returns it.
pub proof fn lemma_inline_wins(
    v: CssomView,
    node: DomNodeRef,
    property: Seq<char>,
    snapshot: Option<DomNodeSnapshot>,
)
    requires
        inline_lookup(v, node, css_property(css_property(property))) is Some,
    ensures
        computed_effect(v, node, property, snapshot).1 == inline_lookup(
            v,
            node,
            css_property(css_property(property)),
        ),
{
}

/// An inserted rule stands at the index returned, and deleting that index
/// gives the sheet back its former rules.
pub proof fn lemma_delete_undoes_insert(v: CssomView, sheet_index: nat, rule: Seq<char>, index: Option<usize>)
    requires
        sheet_index < usize::MAX,
    ensures
        ({
            let (v1, at) = insert_rule_effect(v, sheet_index, rule, index);
            let (v2, deleted) = delete_rule_effect(v1, sheet_index, at);
            &&& v1.sheets[sheet_index as int].rules[at as int] == inserted_rule(rule, v.next_rule_id)
            &&& deleted
            &&& v2.sheets[sheet_index as int].rules == ensured_sheets(v.sheets, sheet_index)[sheet_index as int].rules
        }),
{
    let sheets = ensured_sheets(v.sheets, sheet_index);
    let (v1, at) = insert_rule_effect(v, sheet_index, rule, index);
    assert(ensured_sheets(v1.sheets, sheet_index) == v1.sheets);
    let rules = sheets[sheet_index as int].rules;
    assert(rules.insert(at as int, inserted_rule(rule, v.next_rule_id)).remove(at as int) =~= rules);
}

} // verus!
