//! The selector-bubbling engine: flattens a tree of nested rule blocks into
//! a flat, ordered sequence of emitted blocks, then renders them as CSS text.
//!
//! A nested rule block becomes its own flat block, positioned immediately
//! after the block it was nested in, while declarations and comments that
//! follow a nested block still belong to their enclosing block. The spec
//! functions `bubbled` and `flatten_spec` state that shape denotationally:
//! a rule contributes one block holding exactly its non-rule children in
//! order, followed by the blocks of its nested rules in depth-first order.
use crate::selector::{combine, Selector};
use crate::stylesheet::{RuleSet, Stmt, Style, StyleSheet};
use vstd::prelude::*;

verus! {

broadcast use vstd::seq::group_seq_axioms, vstd::std_specs::vec::group_vec_axioms;

/// One flat emitted block: a rule with its selector and entries, or a bare
/// top-level comment.
pub enum Toplevel {
    RuleSet(Selector, Vec<BlockEntry>),
    MultilineComment(String),
}

/// One entry of an emitted rule block.
pub enum BlockEntry {
    Style(Style),
    MultilineComment(String),
}

/// The mathematical shape of a block entry.
#[verifier::ext_equal]
pub enum EntryV {
    Style { property: Seq<char>, value: Seq<char> },
    Comment(Seq<char>),
}

/// The mathematical shape of an emitted block.
#[verifier::ext_equal]
pub enum ToplevelV {
    Rule { sel: Seq<char>, entries: Seq<EntryV> },
    Comment(Seq<char>),
}

pub open spec fn entry_view(e: BlockEntry) -> EntryV {
    match e {
        BlockEntry::Style(s) => EntryV::Style { property: s.property@, value: s.value@ },
        BlockEntry::MultilineComment(c) => EntryV::Comment(c@),
    }
}

pub open spec fn toplevel_view(t: Toplevel) -> ToplevelV {
    match t {
        Toplevel::RuleSet(sel, entries) => ToplevelV::Rule {
            sel: sel.text@,
            entries: Seq::new(entries@.len(), |i: int| entry_view(entries@[i])),
        },
        Toplevel::MultilineComment(c) => ToplevelV::Comment(c@),
    }
}

pub open spec fn blocks_view(bs: Seq<Toplevel>) -> Seq<ToplevelV> {
    Seq::new(bs.len(), |i: int| toplevel_view(bs[i]))
}

/// The entry a statement contributes to its enclosing block: one for a
/// declaration or a comment, none for a nested rule.
pub open spec fn stmt_entry(s: Stmt) -> Seq<EntryV> {
    match s {
        Stmt::Style(st) => seq![EntryV::Style { property: st.property@, value: st.value@ }],
        Stmt::MultilineComment(c) => seq![EntryV::Comment(c@)],
        Stmt::RuleSet(_) => Seq::empty(),
    }
}

/// The entries of a block: its non-rule children, in source order.
pub open spec fn entries_of(ch: Seq<Stmt>) -> Seq<EntryV>
    decreases ch.len(),
{
    if ch.len() == 0 {
        Seq::empty()
    } else {
        stmt_entry(ch[0]) + entries_of(ch.drop_first())
    }
}

/// The flat blocks a rule statement contributes: its own block, with the
/// combined selector and exactly its non-rule children as entries, followed
/// by the blocks of its nested rules in depth-first order. Non-rule
/// statements contribute no block here.
pub open spec fn bubbled(s: Stmt) -> Seq<ToplevelV>
    decreases s,
{
    match s {
        Stmt::RuleSet(r) => seq![
            ToplevelV::Rule {
                sel: combine(r.super_selector.text@, r.selector.text@),
                entries: entries_of(r.rules@),
            },
        ] + bubbled_seq(r.rules@),
        _ => Seq::empty(),
    }
}

/// The bubbled blocks of a statement sequence, in order.
pub open spec fn bubbled_seq(ch: Seq<Stmt>) -> Seq<ToplevelV>
    decreases ch,
{
    if ch.len() == 0 {
        Seq::empty()
    } else {
        bubbled(ch[0]) + bubbled_seq(ch.drop_first())
    }
}

/// What one top-level statement adds to the flat sequence: a bare comment
/// stays a top-level comment, a bare declaration is not supported and adds
/// nothing, and a rule adds its bubbled blocks.
pub open spec fn top_delta(s: Stmt) -> Seq<ToplevelV> {
    match s {
        Stmt::Style(_) => Seq::empty(),
        Stmt::MultilineComment(c) => seq![ToplevelV::Comment(c@)],
        Stmt::RuleSet(_) => bubbled(s),
    }
}

/// The whole flat sequence produced for a top-level statement sequence.
pub open spec fn flatten_spec(stmts: Seq<Stmt>) -> Seq<ToplevelV>
    decreases stmts.len(),
{
    if stmts.len() == 0 {
        Seq::empty()
    } else {
        top_delta(stmts[0]) + flatten_spec(stmts.drop_first())
    }
}

/// A rule block with further entries appended; other blocks are unchanged.
pub open spec fn add_entries(t: ToplevelV, es: Seq<EntryV>) -> ToplevelV {
    match t {
        ToplevelV::Rule { sel, entries } => ToplevelV::Rule { sel, entries: entries + es },
        c => c,
    }
}

impl Toplevel {
    /// A fresh rule block with no entries yet.
    pub fn new_rule(selector: Selector) -> (t: Toplevel)
        ensures
            toplevel_view(t) == (ToplevelV::Rule {
                sel: selector.text@,
                entries: Seq::<EntryV>::empty(),
            }),
    {
        let t = Toplevel::RuleSet(selector, Vec::new());
        proof {
            assert(toplevel_view(t) =~= ToplevelV::Rule {
                sel: t->RuleSet_0.text@,
                entries: Seq::<EntryV>::empty(),
            });
        }
        t
    }

    /// Append a declaration to a rule block; any other block is unchanged.
    pub fn push_style(&mut self, s: Style)
        ensures
            toplevel_view(*final(self)) == add_entries(
                toplevel_view(*old(self)),
                seq![EntryV::Style { property: s.property@, value: s.value@ }],
            ),
    {
        let ghost pre = toplevel_view(*old(self));
        if let Toplevel::RuleSet(_, entries) = self {
            entries.push(BlockEntry::Style(s));
            proof {
                assert(toplevel_view(*self) =~= add_entries(
                    pre,
                    seq![EntryV::Style { property: s.property@, value: s.value@ }],
                ));
            }
        } else {
            proof {
                assert(toplevel_view(*self) =~= add_entries(
                    pre,
                    seq![EntryV::Style { property: s.property@, value: s.value@ }],
                ));
            }
        }
    }

    /// Append a comment to a rule block; any other block is unchanged.
    pub fn push_comment(&mut self, s: String)
        ensures
            toplevel_view(*final(self)) == add_entries(
                toplevel_view(*old(self)),
                seq![EntryV::Comment(s@)],
            ),
    {
        let ghost pre = toplevel_view(*old(self));
        if let Toplevel::RuleSet(_, entries) = self {
            entries.push(BlockEntry::MultilineComment(s));
            proof {
                assert(toplevel_view(*self) =~= add_entries(pre, seq![EntryV::Comment(s@)]));
            }
        } else {
            proof {
                assert(toplevel_view(*self) =~= add_entries(pre, seq![EntryV::Comment(s@)]));
            }
        }
    }
}

/// The flat sequence of emitted blocks built by one flattening pass.
pub struct Css {
    blocks: Vec<Toplevel>,
}

impl Css {
    /// The mathematical contents of the flat sequence.
    pub closed spec fn view_blocks(self) -> Seq<ToplevelV> {
        blocks_view(self.blocks@)
    }

    /// An empty flat sequence.
    pub fn new() -> (c: Css)
        ensures
            c.view_blocks() == Seq::<ToplevelV>::empty(),
    {
        let c = Css { blocks: Vec::new() };
        proof {
            assert(c.view_blocks() =~= Seq::<ToplevelV>::empty());
        }
        c
    }

    /// Flatten a whole evaluated stylesheet.
    pub fn from_stylesheet(s: StyleSheet) -> (c: Css)
        ensures
            c.view_blocks() == flatten_spec(s.0@),
    {
        Css::new().parse_stylesheet(s)
    }

    /// Process one statement. `open` is the flattening cursor: the index of
    /// the currently open rule's block in the flat sequence, or nothing when
    /// no block is open (top level).
    fn parse_stmt(&mut self, stmt: Stmt, open: Option<usize>)
        requires
            match open {
                Option::Some(j) => j < old(self).view_blocks().len() && old(self).view_blocks()[j as int] is Rule,
                Option::None => true,
            },
        ensures
            match open {
                Option::None => final(self).view_blocks() == old(self).view_blocks() + top_delta(
                    stmt,
                ),
                Option::Some(j) => final(self).view_blocks() == old(self).view_blocks().update(
                    j as int,
                    add_entries(old(self).view_blocks()[j as int], stmt_entry(stmt)),
                ) + bubbled(stmt),
            },
        decreases stmt,
    {
        let ghost gstmt = stmt;
        let ghost pre = self.view_blocks();
        match stmt {
            Stmt::Style(s) => {
                match open {
                    Option::Some(j) => {
                        let mut b = self.blocks.remove(j);
                        b.push_style(s);
                        self.blocks.insert(j, b);
                        proof {
                            assert(self.view_blocks() =~= pre.update(
                                j as int,
                                add_entries(pre[j as int], stmt_entry(gstmt)),
                            ) + bubbled(gstmt));
                        }
                    },
                    Option::None => {
                        proof {
                            assert(self.view_blocks() =~= pre + top_delta(gstmt));
                        }
                    },
                }
            },
            Stmt::MultilineComment(c) => {
                match open {
                    Option::Some(j) => {
                        let mut b = self.blocks.remove(j);
                        b.push_comment(c);
                        self.blocks.insert(j, b);
                        proof {
                            assert(self.view_blocks() =~= pre.update(
                                j as int,
                                add_entries(pre[j as int], stmt_entry(gstmt)),
                            ) + bubbled(gstmt));
                        }
                    },
                    Option::None => {
                        self.blocks.push(Toplevel::MultilineComment(c));
                        proof {
                            assert(self.view_blocks() =~= pre + top_delta(gstmt));
                        }
                    },
                }
            },
            Stmt::RuleSet(r) => {
                let RuleSet { selector, super_selector, rules } = r;
                let combined = super_selector.zip(&selector);
                let j_new = self.blocks.len();
                self.blocks.push(Toplevel::new_rule(combined));
                proof {
                    assert(self.view_blocks() =~= pre + seq![
                        ToplevelV::Rule {
                            sel: combine(
                                gstmt->RuleSet_0.super_selector.text@,
                                gstmt->RuleSet_0.selector.text@,
                            ),
                            entries: Seq::<EntryV>::empty(),
                        },
                    ]);
                    assert(decreases_to!(gstmt => rules));
                }
                self.parse_children(rules, j_new);
                proof {
                    let mid = pre + seq![
                        ToplevelV::Rule {
                            sel: combine(
                                gstmt->RuleSet_0.super_selector.text@,
                                gstmt->RuleSet_0.selector.text@,
                            ),
                            entries: Seq::<EntryV>::empty(),
                        },
                    ];
                    assert(self.view_blocks() =~= pre + bubbled(gstmt)) by {
                        assert(self.view_blocks() == mid.update(
                            j_new as int,
                            add_entries(mid[j_new as int], entries_of(gstmt->RuleSet_0.rules@)),
                        ) + bubbled_seq(gstmt->RuleSet_0.rules@));
                        assert(add_entries(
                            mid[j_new as int],
                            entries_of(gstmt->RuleSet_0.rules@),
                        ) =~= ToplevelV::Rule {
                            sel: combine(
                                gstmt->RuleSet_0.super_selector.text@,
                                gstmt->RuleSet_0.selector.text@,
                            ),
                            entries: entries_of(gstmt->RuleSet_0.rules@),
                        });
                        assert(mid.update(
                            j_new as int,
                            add_entries(mid[j_new as int], entries_of(gstmt->RuleSet_0.rules@)),
                        ) + bubbled_seq(gstmt->RuleSet_0.rules@) =~= pre + bubbled(gstmt));
                    };
                    if open is Some {
                        let j = open->0;
                        assert(pre.update(j as int, add_entries(pre[j as int], stmt_entry(gstmt)))
                            =~= pre);
                    }
                }
            },
        }
    }

    /// Process the children of the rule whose block sits at index `j`:
    /// non-rule children land in that block, nested rules append their own
    /// blocks to the end of the flat sequence.
    #[verifier::loop_isolation(false)]
    fn parse_children(&mut self, rules: Vec<Stmt>, j: usize)
        requires
            j < old(self).view_blocks().len(),
            old(self).view_blocks()[j as int] is Rule,
        ensures
            final(self).view_blocks() == old(self).view_blocks().update(
                j as int,
                add_entries(old(self).view_blocks()[j as int], entries_of(rules@)),
            ) + bubbled_seq(rules@),
        decreases rules,
    {
        let ghost grv = rules;
        let ghost g0 = rules@;
        let ghost pre = self.view_blocks();
        let mut rest = rules;
        let ghost mut k: int = 0;
        proof {
            assert(pre.update(j as int, add_entries(pre[j as int], entries_of(g0.take(0))))
                + bubbled_seq(g0.take(0)) =~= pre);
            assert(g0.take(0) =~= Seq::<Stmt>::empty());
        }
        while rest.len() > 0
            invariant
                0 <= k <= g0.len(),
                rest@ == g0.subrange(k, g0.len() as int),
                j < pre.len(),
                pre[j as int] is Rule,
                self.view_blocks() == pre.update(
                    j as int,
                    add_entries(pre[j as int], entries_of(g0.take(k))),
                ) + bubbled_seq(g0.take(k)),
                grv@ == g0,
            decreases rest.len(),
        {
            let s = rest.remove(0);
            proof {
                assert(s == g0[k]);
                assert(decreases_to!(grv => grv@));
                assert(decreases_to!(grv@ => grv@[k]));
                assert(decreases_to!(grv => s));
                assert(self.view_blocks().len() >= pre.len());
                assert(self.view_blocks()[j as int] == add_entries(
                    pre[j as int],
                    entries_of(g0.take(k)),
                ));
                assert(self.view_blocks()[j as int] is Rule);
            }
            let ghost cur = self.view_blocks();
            self.parse_stmt(s, Option::Some(j));
            proof {
                lemma_entries_of_split(g0.take(k), seq![s]);
                lemma_bubbled_seq_split(g0.take(k), seq![s]);
                assert(g0.take(k + 1) =~= g0.take(k) + seq![s]);
                lemma_singletons(s);
                assert(add_entries(
                    add_entries(pre[j as int], entries_of(g0.take(k))),
                    stmt_entry(s),
                ) =~= add_entries(pre[j as int], entries_of(g0.take(k + 1))));
                assert(cur.update(j as int, add_entries(cur[j as int], stmt_entry(s))) + bubbled(s)
                    =~= pre.update(j as int, add_entries(pre[j as int], entries_of(g0.take(k + 1))))
                    + bubbled_seq(g0.take(k + 1)));
                k = k + 1;
                assert(rest@ =~= g0.subrange(k, g0.len() as int));
            }
        }
        proof {
            assert(g0.take(g0.len() as int) =~= g0);
        }
    }

    /// Flatten every top-level statement in order.
    fn parse_stylesheet(self, s: StyleSheet) -> (c: Css)
        ensures
            c.view_blocks() == self.view_blocks() + flatten_spec(s.0@),
    {
        let mut me = self;
        let ghost pre = me.view_blocks();
        let StyleSheet(stmts) = s;
        let ghost g0 = stmts@;
        let mut rest = stmts;
        let ghost mut k: int = 0;
        proof {
            assert(pre + flatten_spec(g0.take(0)) =~= pre);
            assert(g0.take(0) =~= Seq::<Stmt>::empty());
        }
        while rest.len() > 0
            invariant
                0 <= k <= g0.len(),
                rest@ == g0.subrange(k, g0.len() as int),
                me.view_blocks() == pre + flatten_spec(g0.take(k)),
            decreases rest.len(),
        {
            let st = rest.remove(0);
            proof {
                assert(st == g0[k]);
            }
            let ghost cur = me.view_blocks();
            me.parse_stmt(st, Option::None);
            proof {
                lemma_flatten_spec_split(g0.take(k), seq![st]);
                assert(g0.take(k + 1) =~= g0.take(k) + seq![st]);
                lemma_singletons(st);
                assert(cur + top_delta(st) =~= pre + flatten_spec(g0.take(k + 1)));
                k = k + 1;
                assert(rest@ =~= g0.subrange(k, g0.len() as int));
            }
        }
        proof {
            assert(g0.take(g0.len() as int) =~= g0);
        }
        me
    }

    /// Render the flat sequence as CSS text. Rule blocks with no entries
    /// are omitted entirely; every other block is rendered in order.
    #[verifier::loop_isolation(false)]
    pub fn pretty_print(self) -> (out: String)
        ensures
            out@ == render_blocks(self.view_blocks()),
    {
        proof {
            reveal_strlit(" {\n");
            reveal_strlit("}\n");
            reveal_strlit("/*");
            reveal_strlit("*/\n");
            reveal_strlit("  /*");
            reveal_strlit("  ");
            reveal_strlit(": ");
            reveal_strlit(";\n");
        }
        let ghost bv = self.view_blocks();
        let mut out = String::new();
        let n = self.blocks.len();
        let mut i: usize = 0;
        while i < n
            invariant
                0 <= i <= n,
                out@ == render_blocks(bv.take(i as int)),
            decreases n - i,
        {
            proof {
                lemma_render_blocks_split(bv.take(i as int), seq![bv[i as int]]);
                lemma_render_singletons(bv[i as int], EntryV::Comment(Seq::empty()));
                assert(bv.take(i as int + 1) =~= bv.take(i as int) + seq![bv[i as int]]);
            }
            let ghost base = out@;
            match &self.blocks[i] {
                Toplevel::RuleSet(sel, entries) => {
                    let ghost ev = bv[i as int]->Rule_entries;
                    if entries.len() > 0 {
                        out.append(sel.text.as_str());
                        out.append(" {\n");
                        let ghost head = base + bv[i as int]->Rule_sel + seq![' ', '{', '\n'];
                        assert(out@ =~= head + render_entries(ev.take(0)));
                        let m = entries.len();
                        let mut t: usize = 0;
                        while t < m
                            invariant
                                0 <= t <= m,
                                out@ == head + render_entries(ev.take(t as int)),
                            decreases m - t,
                        {
                            proof {
                                lemma_render_entries_split(ev.take(t as int), seq![ev[t as int]]);
                                lemma_render_singletons(bv[i as int], ev[t as int]);
                                assert(ev.take(t as int + 1) =~= ev.take(t as int) + seq![
                                    ev[t as int],
                                ]);
                            }
                            match &entries[t] {
                                BlockEntry::Style(st) => {
                                    out.append("  ");
                                    out.append(st.property.as_str());
                                    out.append(": ");
                                    out.append(st.value.as_str());
                                    out.append(";\n");
                                },
                                BlockEntry::MultilineComment(c) => {
                                    out.append("  /*");
                                    out.append(c.as_str());
                                    out.append("*/\n");
                                },
                            }
                            proof {
                                assert(out@ =~= head + render_entries(ev.take(t as int + 1)));
                            }
                            t += 1;
                        }
                        out.append("}\n");
                        proof {
                            assert(ev.take(m as int) =~= ev);
                            assert(out@ =~= base + render_block(bv[i as int]));
                            assert(out@ =~= render_blocks(bv.take(i as int + 1)));
                        }
                    } else {
                        proof {
                            assert(render_block(bv[i as int]) =~= Seq::<char>::empty());
                            assert(out@ =~= render_blocks(bv.take(i as int + 1)));
                        }
                    }
                },
                Toplevel::MultilineComment(c) => {
                    out.append("/*");
                    out.append(c.as_str());
                    out.append("*/\n");
                    proof {
                        assert(out@ =~= base + render_block(bv[i as int]));
                        assert(out@ =~= render_blocks(bv.take(i as int + 1)));
                    }
                },
            }
            i += 1;
        }
        proof {
            assert(bv.take(n as int) =~= bv);
        }
        out
    }
}

/// The rendered text of one block entry, indented under its selector.
pub open spec fn render_entry(e: EntryV) -> Seq<char> {
    match e {
        EntryV::Style { property, value } => seq![' ', ' '] + property + seq![':', ' '] + value
            + seq![';', '\n'],
        EntryV::Comment(c) => seq![' ', ' ', '/', '*'] + c + seq!['*', '/', '\n'],
    }
}

/// The rendered entry lines, in order.
pub open spec fn render_entries(es: Seq<EntryV>) -> Seq<char>
    decreases es.len(),
{
    if es.len() == 0 {
        Seq::empty()
    } else {
        render_entry(es[0]) + render_entries(es.drop_first())
    }
}

/// The rendered text of one emitted block. A rule block with no entries
/// at all produces no output: no selector and no braces.
pub open spec fn render_block(t: ToplevelV) -> Seq<char> {
    match t {
        ToplevelV::Rule { sel, entries } => if entries.len() == 0 {
            Seq::empty()
        } else {
            sel + seq![' ', '{', '\n'] + render_entries(entries) + seq!['}', '\n']
        },
        ToplevelV::Comment(c) => seq!['/', '*'] + c + seq!['*', '/', '\n'],
    }
}

/// The rendered text of the whole flat sequence, in order.
pub open spec fn render_blocks(bs: Seq<ToplevelV>) -> Seq<char>
    decreases bs.len(),
{
    if bs.len() == 0 {
        Seq::empty()
    } else {
        render_block(bs[0]) + render_blocks(bs.drop_first())
    }
}

/// The flat contributions of a single statement, unfolded.
pub proof fn lemma_singletons(s: Stmt)
    ensures
        entries_of(seq![s]) == stmt_entry(s),
        bubbled_seq(seq![s]) == bubbled(s),
        flatten_spec(seq![s]) == top_delta(s),
{
    let u = seq![s];
    assert(u[0] == s);
    assert(u.drop_first() =~= Seq::<Stmt>::empty());
    assert(entries_of(u.drop_first()) == Seq::<EntryV>::empty());
    assert(bubbled_seq(u.drop_first()) == Seq::<ToplevelV>::empty());
    assert(flatten_spec(u.drop_first()) == Seq::<ToplevelV>::empty());
    assert(stmt_entry(s) + Seq::<EntryV>::empty() =~= stmt_entry(s));
    assert(bubbled(s) + Seq::<ToplevelV>::empty() =~= bubbled(s));
    assert(top_delta(s) + Seq::<ToplevelV>::empty() =~= top_delta(s));
}

/// Rendered text distributes over concatenation of block sequences.
pub proof fn lemma_render_blocks_split(a: Seq<ToplevelV>, b: Seq<ToplevelV>)
    ensures
        render_blocks(a + b) == render_blocks(a) + render_blocks(b),
    decreases a.len(),
{
    if a.len() == 0 {
        assert(a + b =~= b);
        assert(render_blocks(a) =~= Seq::<char>::empty());
        assert(render_blocks(a) + render_blocks(b) =~= render_blocks(b));
    } else {
        assert((a + b).drop_first() =~= a.drop_first() + b);
        lemma_render_blocks_split(a.drop_first(), b);
        assert(render_block((a + b)[0]) + (render_blocks(a.drop_first()) + render_blocks(b)) =~= (
        render_block(a[0]) + render_blocks(a.drop_first())) + render_blocks(b));
    }
}

/// Rendered entry text distributes over concatenation of entry sequences.
pub proof fn lemma_render_entries_split(a: Seq<EntryV>, b: Seq<EntryV>)
    ensures
        render_entries(a + b) == render_entries(a) + render_entries(b),
    decreases a.len(),
{
    if a.len() == 0 {
        assert(a + b =~= b);
        assert(render_entries(a) =~= Seq::<char>::empty());
        assert(render_entries(a) + render_entries(b) =~= render_entries(b));
    } else {
        assert((a + b).drop_first() =~= a.drop_first() + b);
        lemma_render_entries_split(a.drop_first(), b);
        assert(render_entry((a + b)[0]) + (render_entries(a.drop_first()) + render_entries(b)) =~= (
        render_entry(a[0]) + render_entries(a.drop_first())) + render_entries(b));
    }
}

/// The rendered text of a single block and of a single entry, unfolded.
pub proof fn lemma_render_singletons(t: ToplevelV, e: EntryV)
    ensures
        render_blocks(seq![t]) == render_block(t),
        render_entries(seq![e]) == render_entry(e),
{
    let u = seq![t];
    assert(u[0] == t);
    assert(u.drop_first() =~= Seq::<ToplevelV>::empty());
    assert(render_block(t) + render_blocks(u.drop_first()) =~= render_block(t));
    let w = seq![e];
    assert(w[0] == e);
    assert(w.drop_first() =~= Seq::<EntryV>::empty());
    assert(render_entry(e) + render_entries(w.drop_first()) =~= render_entry(e));
}

/// The entries of a concatenation are the concatenated entries: filtering
/// the non-rule children distributes over `+` and keeps order.
pub proof fn lemma_entries_of_split(a: Seq<Stmt>, b: Seq<Stmt>)
    ensures
        entries_of(a + b) == entries_of(a) + entries_of(b),
    decreases a.len(),
{
    if a.len() == 0 {
        assert(a + b =~= b);
        assert(entries_of(a) =~= Seq::<EntryV>::empty());
        assert(entries_of(a) + entries_of(b) =~= entries_of(b));
    } else {
        assert((a + b).drop_first() =~= a.drop_first() + b);
        lemma_entries_of_split(a.drop_first(), b);
        assert(stmt_entry((a + b)[0]) + (entries_of(a.drop_first()) + entries_of(b)) =~= (
        stmt_entry(a[0]) + entries_of(a.drop_first())) + entries_of(b));
    }
}

/// Bubbled blocks of a concatenation are the concatenated bubbled blocks:
/// sibling rules keep their source order.
pub proof fn lemma_bubbled_seq_split(a: Seq<Stmt>, b: Seq<Stmt>)
    ensures
        bubbled_seq(a + b) == bubbled_seq(a) + bubbled_seq(b),
    decreases a.len(),
{
    if a.len() == 0 {
        assert(a + b =~= b);
        assert(bubbled_seq(a) =~= Seq::<ToplevelV>::empty());
        assert(bubbled_seq(a) + bubbled_seq(b) =~= bubbled_seq(b));
    } else {
        assert((a + b).drop_first() =~= a.drop_first() + b);
        lemma_bubbled_seq_split(a.drop_first(), b);
        assert(bubbled((a + b)[0]) + (bubbled_seq(a.drop_first()) + bubbled_seq(b)) =~= (bubbled(
            a[0],
        ) + bubbled_seq(a.drop_first())) + bubbled_seq(b));
    }
}

/// The flat output of a concatenation of top-level statements is the
/// concatenation of their outputs.
pub proof fn lemma_flatten_spec_split(a: Seq<Stmt>, b: Seq<Stmt>)
    ensures
        flatten_spec(a + b) == flatten_spec(a) + flatten_spec(b),
    decreases a.len(),
{
    if a.len() == 0 {
        assert(a + b =~= b);
        assert(flatten_spec(a) =~= Seq::<ToplevelV>::empty());
        assert(flatten_spec(a) + flatten_spec(b) =~= flatten_spec(b));
    } else {
        assert((a + b).drop_first() =~= a.drop_first() + b);
        lemma_flatten_spec_split(a.drop_first(), b);
        assert(top_delta((a + b)[0]) + (flatten_spec(a.drop_first()) + flatten_spec(b)) =~= (
        top_delta(a[0]) + flatten_spec(a.drop_first())) + flatten_spec(b));
    }
}

/// The position an entry child takes in its block's entry list: the number
/// of entries contributed by the children before it.
pub open spec fn entry_pos(ch: Seq<Stmt>, i: int) -> int {
    entries_of(ch.take(i)).len() as int
}

proof fn lemma_entry_at(ch: Seq<Stmt>, i: int)
    requires
        0 <= i < ch.len(),
        !(ch[i] is RuleSet),
    ensures
        0 <= entry_pos(ch, i) < entries_of(ch).len(),
        entries_of(ch)[entry_pos(ch, i)] == stmt_entry(ch[i])[0],
{
    let a = ch.take(i);
    let b = ch.subrange(i + 1, ch.len() as int);
    assert(ch =~= a + (seq![ch[i]] + b));
    lemma_entries_of_split(a, seq![ch[i]] + b);
    lemma_entries_of_split(seq![ch[i]], b);
    lemma_singletons(ch[i]);
    assert(entries_of(ch) == entries_of(a) + (stmt_entry(ch[i]) + entries_of(b)));
    assert(stmt_entry(ch[i]).len() == 1);
}

proof fn lemma_entry_pos_monotone(ch: Seq<Stmt>, i: int, j: int)
    requires
        0 <= i < j <= ch.len(),
        !(ch[i] is RuleSet),
    ensures
        entry_pos(ch, i) < entry_pos(ch, j),
{
    let a = ch.take(i);
    let b = ch.subrange(i + 1, j);
    assert(ch.take(j) =~= a + (seq![ch[i]] + b));
    lemma_entries_of_split(a, seq![ch[i]] + b);
    lemma_entries_of_split(seq![ch[i]], b);
    lemma_singletons(ch[i]);
    assert(stmt_entry(ch[i]).len() == 1);
}

/// Order preservation: two non-rule children of one block land in its
/// emitted entry list at increasing positions, each carrying exactly its
/// own entry; the relative source order of sibling declarations and
/// comments is preserved.
pub proof fn lemma_order_preservation(ch: Seq<Stmt>, i: int, j: int)
    requires
        0 <= i < j < ch.len(),
        !(ch[i] is RuleSet),
        !(ch[j] is RuleSet),
    ensures
        0 <= entry_pos(ch, i) < entry_pos(ch, j) < entries_of(ch).len(),
        entries_of(ch)[entry_pos(ch, i)] == stmt_entry(ch[i])[0],
        entries_of(ch)[entry_pos(ch, j)] == stmt_entry(ch[j])[0],
{
    lemma_entry_at(ch, i);
    lemma_entry_at(ch, j);
    lemma_entry_pos_monotone(ch, i, j);
}

/// Declaration routing: within a rule, a declaration or comment that
/// follows a nested rule block still lands in the parent rule's emitted
/// block, at its source position among the parent's entries, while the
/// nested rule's own emitted block holds exactly the nested rule's own
/// non-rule children.
pub proof fn lemma_declaration_routing(r: RuleSet, i: int, j: int)
    requires
        0 <= j < i < r.rules@.len(),
        r.rules@[j] is RuleSet,
        !(r.rules@[i] is RuleSet),
    ensures
        bubbled(Stmt::RuleSet(r))[0] == (ToplevelV::Rule {
            sel: combine(r.super_selector.text@, r.selector.text@),
            entries: entries_of(r.rules@),
        }),
        entries_of(r.rules@)[entry_pos(r.rules@, i)] == stmt_entry(r.rules@[i])[0],
        bubbled(r.rules@[j])[0] == (ToplevelV::Rule {
            sel: combine(
                r.rules@[j]->RuleSet_0.super_selector.text@,
                r.rules@[j]->RuleSet_0.selector.text@,
            ),
            entries: entries_of(r.rules@[j]->RuleSet_0.rules@),
        }),
    {
    lemma_entry_at(r.rules@, i);
}

proof fn lemma_bubbled_seq_no_rules(ch: Seq<Stmt>)
    requires
        forall|t: int| 0 <= t < ch.len() ==> !(ch[t] is RuleSet),
    ensures
        bubbled_seq(ch) == Seq::<ToplevelV>::empty(),
    decreases ch.len(),
{
    if ch.len() > 0 {
        lemma_bubbled_seq_no_rules(ch.drop_first());
        assert(bubbled(ch[0]) + Seq::<ToplevelV>::empty() =~= bubbled(ch[0]));
        assert(bubbled(ch[0]) =~= Seq::<ToplevelV>::empty());
    }
}

/// Bubbling position: a rule's flat output is its own block, then the
/// blocks of each nested child in source order, each child's whole subtree
/// before the next sibling's. A nested child preceded by no other nested
/// rule sits immediately after its parent's block.
pub proof fn lemma_bubbling_position(r: RuleSet, j: int)
    requires
        0 <= j < r.rules@.len(),
        r.rules@[j] is RuleSet,
    ensures
        bubbled(Stmt::RuleSet(r)) == seq![
            ToplevelV::Rule {
                sel: combine(r.super_selector.text@, r.selector.text@),
                entries: entries_of(r.rules@),
            },
        ] + bubbled_seq(r.rules@.take(j)) + bubbled(r.rules@[j]) + bubbled_seq(
            r.rules@.subrange(j + 1, r.rules@.len() as int),
        ),
        bubbled(r.rules@[j]).len() >= 1,
        bubbled(r.rules@[j])[0] is Rule,
        (forall|t: int| 0 <= t < j ==> !(r.rules@[t] is RuleSet)) ==> bubbled(Stmt::RuleSet(r))[1]
            == bubbled(r.rules@[j])[0],
{
    let ch = r.rules@;
    let a = ch.take(j);
    let b = ch.subrange(j + 1, ch.len() as int);
    assert(ch =~= a + (seq![ch[j]] + b));
    lemma_bubbled_seq_split(a, seq![ch[j]] + b);
    lemma_bubbled_seq_split(seq![ch[j]], b);
    lemma_singletons(ch[j]);
    assert(bubbled_seq(ch) == bubbled_seq(a) + (bubbled(ch[j]) + bubbled_seq(b)));
    let parent = ToplevelV::Rule {
        sel: combine(r.super_selector.text@, r.selector.text@),
        entries: entries_of(ch),
    };
    assert(bubbled(Stmt::RuleSet(r)) =~= seq![parent] + bubbled_seq(a) + bubbled(ch[j])
        + bubbled_seq(b));
    if forall|t: int| 0 <= t < j ==> !(ch[t] is RuleSet) {
        lemma_bubbled_seq_no_rules(a);
        assert(bubbled(Stmt::RuleSet(r))[1] == bubbled(ch[j])[0]);
    }
}

/// The selector chain: `combine` folded along a root-to-leaf path of local
/// selectors.
pub open spec fn chain(path: Seq<Seq<char>>) -> Seq<char>
    decreases path.len(),
{
    if path.len() == 0 {
        Seq::empty()
    } else {
        combine(chain(path.drop_last()), path.last())
    }
}

/// The root-to-leaf combined selectors of every rule in a statement's
/// subtree, in depth-first order, starting from the combined ancestor
/// selector `anc`.
pub open spec fn sels_of(s: Stmt, anc: Seq<char>) -> Seq<Seq<char>>
    decreases s,
{
    match s {
        Stmt::RuleSet(r) => seq![combine(anc, r.selector.text@)] + sels_of_seq(
            r.rules@,
            combine(anc, r.selector.text@),
        ),
        _ => Seq::empty(),
    }
}

pub open spec fn sels_of_seq(ch: Seq<Stmt>, anc: Seq<char>) -> Seq<Seq<char>>
    decreases ch,
{
    if ch.len() == 0 {
        Seq::empty()
    } else {
        sels_of(ch[0], anc) + sels_of_seq(ch.drop_first(), anc)
    }
}

/// A statement tree is well-formed under the combined ancestor selector
/// `anc` when every rule's stored super-selector is exactly `anc` and its
/// children are well-formed under the rule's own combined selector; this is
/// what the evaluator guarantees when it fills in super-selectors.
pub open spec fn wf_tree(s: Stmt, anc: Seq<char>) -> bool
    decreases s,
{
    match s {
        Stmt::RuleSet(r) => r.super_selector.text@ == anc && wf_seq(
            r.rules@,
            combine(anc, r.selector.text@),
        ),
        _ => true,
    }
}

pub open spec fn wf_seq(ch: Seq<Stmt>, anc: Seq<char>) -> bool
    decreases ch,
{
    if ch.len() == 0 {
        true
    } else {
        wf_tree(ch[0], anc) && wf_seq(ch.drop_first(), anc)
    }
}

/// Selector correctness: for a well-formed tree, every emitted rule block's
/// selector is `combine` applied along its full ancestor chain, root to
/// leaf — the k-th block of the flat output carries the k-th depth-first
/// chain-combined selector.
pub proof fn lemma_selector_correctness(s: Stmt, anc: Seq<char>)
    requires
        wf_tree(s, anc),
    ensures
        bubbled(s).len() == sels_of(s, anc).len(),
        forall|k: int|
            0 <= k < bubbled(s).len() ==> (#[trigger] bubbled(s)[k] matches ToplevelV::Rule {
                sel,
                ..
            } && sel == sels_of(s, anc)[k]),
    decreases s,
{
    match s {
        Stmt::RuleSet(r) => {
            lemma_selector_correctness_seq(r.rules@, combine(anc, r.selector.text@));
        },
        _ => {},
    }
}

proof fn lemma_selector_correctness_seq(ch: Seq<Stmt>, anc: Seq<char>)
    requires
        wf_seq(ch, anc),
    ensures
        bubbled_seq(ch).len() == sels_of_seq(ch, anc).len(),
        forall|k: int|
            0 <= k < bubbled_seq(ch).len() ==> (#[trigger] bubbled_seq(ch)[k]
                matches ToplevelV::Rule { sel, .. } && sel == sels_of_seq(ch, anc)[k]),
    decreases ch,
{
    if ch.len() > 0 {
        lemma_selector_correctness(ch[0], anc);
        lemma_selector_correctness_seq(ch.drop_first(), anc);
    }
}

/// Empty-block elision: a rule block with no entries contributes no output
/// at all — rendering with the block present equals rendering with it
/// removed.
pub proof fn lemma_empty_block_elision(bs: Seq<ToplevelV>, i: int)
    requires
        0 <= i < bs.len(),
        bs[i] matches ToplevelV::Rule { entries, .. } && entries.len() == 0,
    ensures
        render_blocks(bs) == render_blocks(bs.remove(i)),
{
    let a = bs.take(i);
    let b = bs.subrange(i + 1, bs.len() as int);
    assert(bs =~= a + (seq![bs[i]] + b));
    lemma_render_blocks_split(a, seq![bs[i]] + b);
    lemma_render_blocks_split(seq![bs[i]], b);
    lemma_render_singletons(bs[i], EntryV::Comment(Seq::empty()));
    assert(render_block(bs[i]) =~= Seq::<char>::empty());
    assert(bs.remove(i) =~= a + b);
    lemma_render_blocks_split(a, b);
    assert(render_blocks(bs) =~= render_blocks(a) + render_blocks(b));
}

} // verus!
