use syljs::cssom::{
    invalidation_for_property, normalize_css_property, parse_rule, CssomHost, ResearchCssomHost,
    StyleInvalidationKind,
};
use syljs::dom::{DomHost, DomNodeRef, ResearchDom};

fn chars(s: &str) -> Vec<char> {
    s.chars().collect()
}

fn text(v: &[char]) -> String {
    v.iter().collect()
}

#[test]
fn property_names_are_normalized() {
    assert_eq!(text(&normalize_css_property(&chars("backgroundColor"))), "background-color");
    assert_eq!(text(&normalize_css_property(&chars("  font_size "))), "font-size");
    assert_eq!(text(&normalize_css_property(&chars("Color"))), "color");
    assert_eq!(text(&normalize_css_property(&chars("margin-top"))), "margin-top");
}

#[test]
fn invalidation_kinds_follow_property() {
    assert_eq!(invalidation_for_property(&chars("width")), StyleInvalidationKind::Layout);
    assert_eq!(invalidation_for_property(&chars("marginTop")), StyleInvalidationKind::Layout);
    assert_eq!(invalidation_for_property(&chars("class")), StyleInvalidationKind::StyleRecalc);
    assert_eq!(invalidation_for_property(&chars("color")), StyleInvalidationKind::Paint);
    assert_eq!(invalidation_for_property(&chars("insertRule")), StyleInvalidationKind::StyleRecalc);
    assert_eq!(invalidation_for_property(&chars("deleteRule")), StyleInvalidationKind::StyleRecalc);
}

#[test]
fn rule_mutations_need_style_recalc() {
    let mut h = ResearchCssomHost::new();
    let rule = ".hot { color: #fff; }";
    assert_eq!(h.insert_rule(0, rule, Some(5)), 0);
    assert_eq!(h.stylesheet(0).rules[0].selector, ".hot");
    assert_eq!(h.metrics().rules_inserted, 1);
    let last = h.mutations().last().cloned().unwrap();
    assert_eq!(last.node, None);
    assert_eq!(last.property, "insertRule");
    assert_eq!(last.value, Some(rule.to_string()));
    assert_eq!(last.invalidation, StyleInvalidationKind::StyleRecalc);
    assert!(h.delete_rule(0, 0));
    let last = h.mutations().last().cloned().unwrap();
    assert_eq!(last.property, "deleteRule");
    assert_eq!(last.invalidation, StyleInvalidationKind::StyleRecalc);
}

#[test]
fn parse_rule_splits_selector_and_declarations() {
    let r = parse_rule(" .card { color: red; fontSize: 12px } ").expect("rule parses");
    assert_eq!(r.selector, ".card");
    assert_eq!(
        r.declarations,
        vec![
            ("color".to_string(), "red".to_string()),
            ("font-size".to_string(), "12px".to_string())
        ]
    );
    assert_eq!(r.css_text, ".card { color: red; fontSize: 12px }");
    assert!(parse_rule("no braces here").is_none());
}

#[test]
fn new_host_has_one_empty_sheet() {
    let mut h = ResearchCssomHost::new();
    assert_eq!(h.stylesheet_count(), 1);
    assert!(h.stylesheet(0).rules.is_empty());
    let d = ResearchCssomHost::default();
    assert_eq!(d.metrics().rules_inserted, 0);
}

#[test]
fn inline_style_set_get_remove() {
    let mut h = ResearchCssomHost::new();
    let n = DomNodeRef(3);
    h.inline_style_set(n, "backgroundColor", "red".to_string());
    assert_eq!(h.inline_style_get(n, "background-color"), Some("red".to_string()));
    assert_eq!(h.inline_style_css_text(n), "background-color: red;");
    h.inline_style_remove(n, "background-color");
    assert_eq!(h.inline_style_get(n, "backgroundColor"), None);
    let muts = h.mutations();
    assert_eq!(muts.len(), 2);
    assert_eq!(muts[0].property, "background-color");
    assert_eq!(muts[0].value, Some("red".to_string()));
    assert_eq!(muts[0].invalidation, StyleInvalidationKind::Paint);
    assert_eq!(muts[1].value, None);
    assert_eq!(h.metrics().inline_writes, 1);
    assert_eq!(h.metrics().inline_removals, 1);
    assert_eq!(h.metrics().invalidations, 2);
}

#[test]
fn css_text_roundtrip_sorts_properties() {
    let mut h = ResearchCssomHost::new();
    let n = DomNodeRef(4);
    h.inline_style_set_css_text(n, "width: 10px; color: blue; bogus".to_string());
    assert_eq!(h.inline_style_css_text(n), "color: blue; width: 10px;");
    assert_eq!(h.inline_style_get(n, "width"), Some("10px".to_string()));
}

#[test]
fn insert_and_delete_rules() {
    let mut h = ResearchCssomHost::new();
    assert_eq!(h.insert_rule(0, ".a { color: red }", None), 0);
    assert_eq!(h.insert_rule(0, ".b { color: blue }", Some(0)), 0);
    assert_eq!(h.insert_rule(0, ".c { color: green }", Some(10)), 2);
    let sheet = h.stylesheet(0);
    let selectors: Vec<String> = sheet.rules.iter().map(|r| r.selector.clone()).collect();
    assert_eq!(selectors, vec![".b", ".a", ".c"]);
    assert_eq!(sheet.rules[1].id, 0);
    assert_eq!(sheet.rules[0].id, 1);
    assert!(h.delete_rule(0, 1));
    assert!(!h.delete_rule(0, 5));
    assert_eq!(h.stylesheet(0).rules.len(), 2);
    assert_eq!(h.metrics().rules_inserted, 3);
    assert_eq!(h.metrics().rules_deleted, 1);
}

#[test]
fn insert_rule_into_new_sheet_creates_sheets() {
    let mut h = ResearchCssomHost::new();
    assert_eq!(h.insert_rule(2, "p { margin: 0 }", None), 0);
    assert_eq!(h.stylesheet_count(), 3);
    assert_eq!(h.stylesheet(2).id, 2);
    assert!(h.stylesheet(1).rules.is_empty());
}

#[test]
fn unparsable_rule_keeps_raw_text() {
    let mut h = ResearchCssomHost::new();
    h.insert_rule(0, "garbage", None);
    let r = &h.stylesheet(0).rules[0];
    assert_eq!(r.selector, "");
    assert!(r.declarations.is_empty());
    assert_eq!(r.css_text, "garbage");
}

#[test]
fn computed_style_uses_inline_then_rules_then_defaults() {
    let mut dom: ResearchDom<u32> = ResearchDom::new_document("css");
    let body = dom.body();
    let div = dom.create_element("div");
    dom.append_child(body, div);
    dom.set_attribute(div, "class", "card wide".to_string());
    dom.set_attribute(div, "id", "hero".to_string());

    let mut h = ResearchCssomHost::new();
    h.insert_rule(0, ".card { color: red; width: 5px }", None);
    h.insert_rule(0, "#hero { color: blue }", None);
    h.insert_rule(0, "span { color: pink }", None);

    assert_eq!(h.computed_style_get(&dom, div, "color"), Some("blue".to_string()));
    assert_eq!(h.computed_style_get(&dom, div, "width"), Some("5px".to_string()));
    assert_eq!(h.computed_style_get(&dom, div, "display"), Some("block".to_string()));
    assert_eq!(h.computed_style_get(&dom, div, "fontSize"), Some("16px".to_string()));
    assert_eq!(h.computed_style_get(&dom, div, "cursor"), None);

    h.inline_style_set(div, "color", "green".to_string());
    assert_eq!(h.computed_style_get(&dom, div, "color"), Some("green".to_string()));

    assert_eq!(h.computed_style_get(&dom, DomNodeRef(999), "display"), None);
    assert_eq!(h.metrics().computed_reads, 7);
}

#[test]
fn delete_after_insert_restores_rules() {
    let mut h = ResearchCssomHost::new();
    h.insert_rule(0, ".x { top: 1px }", None);
    let before: Vec<String> = h.stylesheet(0).rules.iter().map(|r| r.css_text.clone()).collect();
    let at = h.insert_rule(0, ".y { top: 2px }", Some(0));
    assert!(h.delete_rule(0, at));
    let after: Vec<String> = h.stylesheet(0).rules.iter().map(|r| r.css_text.clone()).collect();
    assert_eq!(before, after);
}
