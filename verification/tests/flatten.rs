use nestcss::css::{BlockEntry, Css, Toplevel};
use nestcss::selector::Selector;
use nestcss::stylesheet::{RuleSet, Stmt, Style, StyleSheet};

fn sel(text: &str) -> Selector {
    Selector { text: text.to_string() }
}

fn decl(property: &str, value: &str) -> Stmt {
    Stmt::Style(Style { property: property.to_string(), value: value.to_string() })
}

#[test]
fn selector_combination() {
    assert_eq!(Selector::root().zip(&sel("a")).text, "a");
    assert_eq!(sel("a").zip(&sel("b")).text, "a b");
    assert_eq!(sel("a b").zip(&sel("c")).text, "a b c");
}

#[test]
fn end_to_end_scenario() {
    // a { color: red; b { color: blue; } color: green; }
    let tree = StyleSheet(vec![Stmt::RuleSet(RuleSet {
        selector: sel("a"),
        super_selector: sel(""),
        rules: vec![
            decl("color", "red"),
            Stmt::RuleSet(RuleSet {
                selector: sel("b"),
                super_selector: sel("a"),
                rules: vec![decl("color", "blue")],
            }),
            decl("color", "green"),
        ],
    })]);
    let out = Css::from_stylesheet(tree).pretty_print();
    assert_eq!(
        out,
        "a {\n  color: red;\n  color: green;\n}\na b {\n  color: blue;\n}\n"
    );
}

#[test]
fn end_to_end_elision() {
    // a rule containing only an empty nested rule renders to empty output
    let tree = StyleSheet(vec![Stmt::RuleSet(RuleSet {
        selector: sel("a"),
        super_selector: sel(""),
        rules: vec![Stmt::RuleSet(RuleSet {
            selector: sel("b"),
            super_selector: sel("a"),
            rules: vec![],
        })],
    })]);
    let out = Css::from_stylesheet(tree).pretty_print();
    assert_eq!(out, "");
}

#[test]
fn declaration_routing_after_nested_block() {
    // the declaration after the nested block belongs to the outer rule
    let tree = StyleSheet(vec![Stmt::RuleSet(RuleSet {
        selector: sel("a"),
        super_selector: sel(""),
        rules: vec![
            Stmt::RuleSet(RuleSet {
                selector: sel("b"),
                super_selector: sel("a"),
                rules: vec![decl("x", "1")],
            }),
            decl("y", "2"),
        ],
    })]);
    let out = Css::from_stylesheet(tree).pretty_print();
    assert_eq!(out, "a {\n  y: 2;\n}\na b {\n  x: 1;\n}\n");
}

#[test]
fn sibling_rule_order_and_bubbling_position() {
    // parent first, then each nested sibling's block in source order
    let tree = StyleSheet(vec![Stmt::RuleSet(RuleSet {
        selector: sel("a"),
        super_selector: sel(""),
        rules: vec![
            decl("p", "0"),
            Stmt::RuleSet(RuleSet {
                selector: sel("b"),
                super_selector: sel("a"),
                rules: vec![decl("q", "1")],
            }),
            Stmt::RuleSet(RuleSet {
                selector: sel("c"),
                super_selector: sel("a"),
                rules: vec![decl("r", "2")],
            }),
        ],
    })]);
    let out = Css::from_stylesheet(tree).pretty_print();
    assert_eq!(
        out,
        "a {\n  p: 0;\n}\na b {\n  q: 1;\n}\na c {\n  r: 2;\n}\n"
    );
}

#[test]
fn deep_nesting_selector_chain() {
    let tree = StyleSheet(vec![Stmt::RuleSet(RuleSet {
        selector: sel("a"),
        super_selector: sel(""),
        rules: vec![Stmt::RuleSet(RuleSet {
            selector: sel("b"),
            super_selector: sel("a"),
            rules: vec![Stmt::RuleSet(RuleSet {
                selector: sel("c"),
                super_selector: sel("a b"),
                rules: vec![decl("z", "9")],
            })],
        })],
    })]);
    let out = Css::from_stylesheet(tree).pretty_print();
    assert_eq!(out, "a b c {\n  z: 9;\n}\n");
}

#[test]
fn top_level_comment_kept_in_position() {
    let tree = StyleSheet(vec![
        Stmt::MultilineComment(" head ".to_string()),
        Stmt::RuleSet(RuleSet {
            selector: sel("a"),
            super_selector: sel(""),
            rules: vec![decl("k", "v"), Stmt::MultilineComment(" in ".to_string())],
        }),
    ]);
    let out = Css::from_stylesheet(tree).pretty_print();
    assert_eq!(out, "/* head */\na {\n  k: v;\n  /* in */\n}\n");
}

#[test]
fn top_level_bare_declaration_is_ignored() {
    let tree = StyleSheet(vec![decl("k", "v")]);
    let out = Css::from_stylesheet(tree).pretty_print();
    assert_eq!(out, "");
}

#[test]
fn comment_keeps_block_alive() {
    let tree = StyleSheet(vec![Stmt::RuleSet(RuleSet {
        selector: sel("a"),
        super_selector: sel(""),
        rules: vec![Stmt::MultilineComment(" only ".to_string())],
    })]);
    let out = Css::from_stylesheet(tree).pretty_print();
    assert_eq!(out, "a {\n  /* only */\n}\n");
}

#[test]
fn new_rule_and_push_entries() {
    let mut t = Toplevel::new_rule(sel("a"));
    t.push_style(Style { property: "k".to_string(), value: "v".to_string() });
    t.push_comment(" c ".to_string());
    match t {
        Toplevel::RuleSet(s, entries) => {
            assert_eq!(s.text, "a");
            assert_eq!(entries.len(), 2);
            assert!(matches!(&entries[0], BlockEntry::Style(_)));
            assert!(matches!(&entries[1], BlockEntry::MultilineComment(_)));
        }
        Toplevel::MultilineComment(_) => panic!("expected a rule block"),
    }
    // pushing onto a comment block changes nothing
    let mut c = Toplevel::MultilineComment(" c ".to_string());
    c.push_style(Style { property: "k".to_string(), value: "v".to_string() });
    assert!(matches!(c, Toplevel::MultilineComment(_)));
}

#[test]
fn empty_stylesheet_renders_empty() {
    let out = Css::from_stylesheet(StyleSheet(vec![])).pretty_print();
    assert_eq!(out, "");
    let out2 = Css::new().pretty_print();
    assert_eq!(out2, "");
}
