//! Selectors and the descendant combination used when a nested rule block
//! bubbles to the top level.
use vstd::prelude::*;

verus! {

/// A CSS selector, kept as plain text; the engine never inspects it beyond
/// combining a parent selector with a child selector.
pub struct Selector {
    pub text: String,
}

/// Combination of a (possibly empty) parent selector with a child selector:
/// the empty parent is the identity, otherwise the two are joined by a space
/// (descendant combination).
pub open spec fn combine(parent: Seq<char>, child: Seq<char>) -> Seq<char> {
    if parent.len() == 0 {
        child
    } else {
        parent + seq![' '] + child
    }
}

impl Selector {
    /// The selector for no enclosing rule at all: the identity of `combine`.
    pub fn root() -> (r: Selector)
        ensures
            r.text@ == Seq::<char>::empty(),
    {
        Selector { text: String::new() }
    }

    /// Combine `self` (the ancestor selector) with `child`.
    pub fn zip(&self, child: &Selector) -> (r: Selector)
        ensures
            r.text@ == combine(self.text@, child.text@),
    {
        if self.text.as_str().unicode_len() == 0 {
            Selector { text: child.text.clone() }
        } else {
            let mut t = self.text.clone();
            t.append(" ");
            t.append(child.text.as_str());
            proof {
                reveal_strlit(" ");
                assert(t@ =~= combine(self.text@, child.text@));
            }
            Selector { text: t }
        }
    }
}

} // verus!
