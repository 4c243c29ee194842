//! The evaluated statement tree that the flattening engine consumes.
use crate::selector::Selector;
use vstd::prelude::*;

verus! {

/// A single declaration: a property and its already-evaluated value text.
pub struct Style {
    pub property: String,
    pub value: String,
}

/// A rule block as the evaluator hands it over: its local selector, the
/// combined selector inherited from all enclosing rules, and its child
/// statements in source order.
pub struct RuleSet {
    pub selector: Selector,
    pub super_selector: Selector,
    pub rules: Vec<Stmt>,
}

/// One evaluated statement: a declaration, a multiline comment, or a
/// nested rule block.
pub enum Stmt {
    Style(Style),
    MultilineComment(String),
    RuleSet(RuleSet),
}

/// An evaluated stylesheet: its top-level statements in source order.
pub struct StyleSheet(pub Vec<Stmt>);

} // verus!
