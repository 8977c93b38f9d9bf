//! Laws of the parsed tree: the levels nest strictly, and every article
//! bears the number that its heading shows.

use vstd::prelude::*;
use crate::ast::{
    add_item, after_spaces, begin_structure, clause_at, close_to, continuation, finish,
    flush_article, flush_chapter, flush_clause, flush_part, flush_section, heading_at,
    is_reference, item_at, leaf_view, lemma_pruned_clean, no_empty_structure, open_article,
    open_clause, open_heading, parse_spec, preamble_node, pruned, pruned_children, run, step,
    step_other, toc_check, with_child, with_line, ParseState,
};
use crate::diff::flatten::{child_parents, flat, flat_articles, flat_children, info_of, is_listed};
use crate::models::{InfoView, NodeType, NodeView};
use crate::text::{lines_of, trimmed};

verus! {

/// The depth of a kind of node: a part lies above a chapter, a chapter above
/// a section, then come articles, clauses and items. A preamble stands where
/// articles stand.
pub open spec fn level(kind: NodeType) -> int {
    match kind {
        NodeType::Part => 1,
        NodeType::Chapter => 2,
        NodeType::Section => 3,
        NodeType::Article => 4,
        NodeType::Preamble => 4,
        NodeType::Clause => 5,
        NodeType::Item => 6,
    }
}

/// Whether `number` is what the line `line_no` of `lines`, counted from one
/// and taken without surrounding white space, shows between `第` and `条`
/// at its start.
pub open spec fn shown_on_line(lines: Seq<Seq<char>>, line_no: nat, number: Seq<char>) -> bool {
    &&& 1 <= line_no <= lines.len()
    &&& heading_at(trimmed(lines[line_no - 1]), '条') == Some(number.len() as int + 1)
    &&& number == trimmed(lines[line_no - 1]).subrange(1, number.len() as int + 1)
}

/// Whether the node `n` and all nodes below it are sound: every article
/// bears the number shown on the line on which it starts, and every child
/// lies deeper than its parent.
pub open spec fn sound(lines: Seq<Seq<char>>, n: NodeView) -> bool
    decreases n,
{
    &&& n.node_type == NodeType::Article ==> shown_on_line(lines, n.start_line, n.number)
    &&& forall|i: int|
        0 <= i < n.children.len() ==> level((#[trigger] n.children[i]).node_type) > level(
            n.node_type,
        ) && sound(lines, n.children[i])
}

/// Whether every one of the nodes is sound.
pub open spec fn all_sound(lines: Seq<Seq<char>>, nodes: Seq<NodeView>) -> bool {
    forall|i: int| 0 <= i < nodes.len() ==> sound(lines, #[trigger] nodes[i])
}

/// Whether an open node, where there is one, is of its kind and sound.
pub open spec fn slot_sound(lines: Seq<Seq<char>>, slot: Option<NodeView>, kind: NodeType) -> bool {
    slot is Some ==> slot->0.node_type == kind && sound(lines, slot->0)
}

/// Whether all nodes that the parser holds are sound.
pub open spec fn state_sound(lines: Seq<Seq<char>>, st: ParseState) -> bool {
    &&& all_sound(lines, st.root)
    &&& slot_sound(lines, st.part, NodeType::Part)
    &&& slot_sound(lines, st.chapter, NodeType::Chapter)
    &&& slot_sound(lines, st.section, NodeType::Section)
    &&& slot_sound(lines, st.article, NodeType::Article)
    &&& slot_sound(lines, st.clause, NodeType::Clause)
}

proof fn lemma_with_child(lines: Seq<Seq<char>>, p: NodeView, c: NodeView)
    requires
        sound(lines, p),
        sound(lines, c),
        level(c.node_type) > level(p.node_type),
    ensures
        sound(lines, with_child(p, c)),
{
    let n = with_child(p, c);
    assert forall|i: int| 0 <= i < n.children.len() implies level(
        (#[trigger] n.children[i]).node_type,
    ) > level(n.node_type) && sound(lines, n.children[i]) by {
        if i < p.children.len() {
            assert(n.children[i] == p.children[i]);
        }
    }
}

proof fn lemma_with_line(lines: Seq<Seq<char>>, n: NodeView, t: Seq<char>)
    requires
        sound(lines, n),
    ensures
        sound(lines, with_line(n, t)),
{
    let m = with_line(n, t);
    assert forall|i: int| 0 <= i < m.children.len() implies level(
        (#[trigger] m.children[i]).node_type,
    ) > level(m.node_type) && sound(lines, m.children[i]) by {
        assert(m.children[i] == n.children[i]);
    }
}

proof fn lemma_leaf(
    lines: Seq<Seq<char>>,
    kind: NodeType,
    number: Seq<char>,
    title: Option<Seq<char>>,
    content: Seq<char>,
    line: nat,
)
    requires
        kind == NodeType::Article ==> shown_on_line(lines, line, number),
    ensures
        sound(lines, leaf_view(kind, number, title, content, line)),
{
}

proof fn lemma_push_sound(lines: Seq<Seq<char>>, nodes: Seq<NodeView>, n: NodeView)
    requires
        all_sound(lines, nodes),
        sound(lines, n),
    ensures
        all_sound(lines, nodes.push(n)),
{
    assert forall|i: int| 0 <= i < nodes.push(n).len() implies sound(
        lines,
        #[trigger] nodes.push(n)[i],
    ) by {
        if i < nodes.len() {
            assert(nodes.push(n)[i] == nodes[i]);
        }
    }
}

proof fn lemma_begin_structure(lines: Seq<Seq<char>>, st: ParseState)
    requires
        state_sound(lines, st),
    ensures
        state_sound(lines, begin_structure(st)),
{
    if !st.started && st.preamble.len() > 0 {
        lemma_leaf(
            lines,
            NodeType::Preamble,
            "0"@,
            Some("序言/目录"@),
            crate::text::joined(st.preamble),
            1,
        );
        lemma_push_sound(lines, st.root, preamble_node(st.preamble));
    }
}

proof fn lemma_flush_clause(lines: Seq<Seq<char>>, st: ParseState)
    requires
        state_sound(lines, st),
    ensures
        state_sound(lines, flush_clause(st)),
        flush_clause(st).clause is None,
{
    if st.clause is Some && st.article is Some {
        lemma_with_child(lines, st.article->0, st.clause->0);
    }
}

proof fn lemma_flush_article(lines: Seq<Seq<char>>, st: ParseState)
    requires
        state_sound(lines, st),
    ensures
        state_sound(lines, flush_article(st)),
        flush_article(st).article is None,
        flush_article(st).clause == st.clause,
{
    if let Some(a) = st.article {
        if let Some(s) = st.section {
            lemma_with_child(lines, s, a);
        } else if let Some(c) = st.chapter {
            lemma_with_child(lines, c, a);
        } else if let Some(p) = st.part {
            lemma_with_child(lines, p, a);
        } else {
            lemma_push_sound(lines, st.root, a);
        }
    }
}

proof fn lemma_flush_section(lines: Seq<Seq<char>>, st: ParseState)
    requires
        state_sound(lines, st),
    ensures
        state_sound(lines, flush_section(st)),
        flush_section(st).section is None,
        flush_section(st).article == st.article,
        flush_section(st).clause == st.clause,
{
    if let Some(s) = st.section {
        if let Some(c) = st.chapter {
            lemma_with_child(lines, c, s);
        } else if let Some(p) = st.part {
            lemma_with_child(lines, p, s);
        } else {
            lemma_push_sound(lines, st.root, s);
        }
    }
}

proof fn lemma_flush_chapter(lines: Seq<Seq<char>>, st: ParseState)
    requires
        state_sound(lines, st),
    ensures
        state_sound(lines, flush_chapter(st)),
        flush_chapter(st).chapter is None,
        flush_chapter(st).section == st.section,
        flush_chapter(st).article == st.article,
        flush_chapter(st).clause == st.clause,
{
    if let Some(c) = st.chapter {
        if let Some(p) = st.part {
            lemma_with_child(lines, p, c);
        } else {
            lemma_push_sound(lines, st.root, c);
        }
    }
}

proof fn lemma_flush_part(lines: Seq<Seq<char>>, st: ParseState)
    requires
        state_sound(lines, st),
    ensures
        state_sound(lines, flush_part(st)),
        flush_part(st).part is None,
        flush_part(st).chapter == st.chapter,
        flush_part(st).section == st.section,
        flush_part(st).article == st.article,
        flush_part(st).clause == st.clause,
{
    if let Some(p) = st.part {
        lemma_push_sound(lines, st.root, p);
    }
}

proof fn lemma_close_to(lines: Seq<Seq<char>>, st: ParseState, kind: NodeType)
    requires
        state_sound(lines, st),
    ensures
        state_sound(lines, close_to(st, kind)),
        close_to(st, kind).clause is None,
        close_to(st, kind).article is None,
        kind == NodeType::Part ==> close_to(st, kind).part is None && close_to(st, kind).chapter is None
            && close_to(st, kind).section is None,
        kind == NodeType::Chapter ==> close_to(st, kind).chapter is None && close_to(
            st,
            kind,
        ).section is None,
        kind == NodeType::Section ==> close_to(st, kind).section is None,
{
    lemma_flush_clause(lines, st);
    let s0 = flush_clause(st);
    lemma_flush_article(lines, s0);
    let s1 = flush_article(s0);
    lemma_flush_section(lines, s1);
    let s2 = flush_section(s1);
    lemma_flush_chapter(lines, s2);
    let s3 = flush_chapter(s2);
    lemma_flush_part(lines, s3);
}

proof fn lemma_open_article(lines: Seq<Seq<char>>, st: ParseState, line_no: nat)
    requires
        state_sound(lines, st),
        1 <= line_no <= lines.len(),
        heading_at(trimmed(lines[line_no - 1]), '条') is Some,
    ensures
        state_sound(
            lines,
            open_article(
                st,
                trimmed(lines[line_no - 1]),
                heading_at(trimmed(lines[line_no - 1]), '条')->0,
                line_no,
            ),
        ),
{
    let t = trimmed(lines[line_no - 1]);
    let k = heading_at(t, '条')->0;
    lemma_begin_structure(lines, st);
    lemma_close_to(lines, begin_structure(st), NodeType::Article);
    crate::ast::lemma_run_end(t, 1, crate::ast::NumeralClass::Heading);
    assert(t.subrange(1, k).len() == k - 1);
    lemma_leaf(lines, NodeType::Article, t.subrange(1, k), None, trimmed(after_spaces(t, k)), line_no);
}

proof fn lemma_open_heading(
    lines: Seq<Seq<char>>,
    st: ParseState,
    kind: NodeType,
    t: Seq<char>,
    k: int,
    line_no: nat,
)
    requires
        state_sound(lines, st),
        kind == NodeType::Part || kind == NodeType::Chapter || kind == NodeType::Section,
    ensures
        state_sound(lines, open_heading(st, kind, t, k, line_no)),
{
    lemma_begin_structure(lines, st);
    lemma_close_to(lines, begin_structure(st), kind);
    let rest = t.subrange(k + 1, t.len() as int);
    let title = if kind == NodeType::Chapter && rest.len() > 0 {
        Some(trimmed(rest))
    } else {
        None
    };
    lemma_leaf(lines, kind, t.subrange(1, k), title, Seq::empty(), line_no);
}

proof fn lemma_open_clause(lines: Seq<Seq<char>>, st: ParseState, t: Seq<char>, k: int, line_no: nat)
    requires
        state_sound(lines, st),
    ensures
        state_sound(lines, open_clause(st, t, k, line_no)),
{
    lemma_begin_structure(lines, st);
    lemma_flush_clause(lines, begin_structure(st));
    lemma_leaf(
        lines,
        NodeType::Clause,
        t.subrange(1, k),
        None,
        t.subrange(0, k + 1) + trimmed(t.subrange(k + 1, t.len() as int)),
        line_no,
    );
}

proof fn lemma_add_item(lines: Seq<Seq<char>>, st: ParseState, t: Seq<char>, k: int, line_no: nat)
    requires
        state_sound(lines, st),
    ensures
        state_sound(lines, add_item(st, t, k, line_no)),
{
    let node = leaf_view(
        NodeType::Item,
        t.subrange(0, k),
        None,
        t.subrange(0, k + 1) + trimmed(t.subrange(k + 1, t.len() as int)),
        line_no,
    );
    lemma_leaf(
        lines,
        NodeType::Item,
        t.subrange(0, k),
        None,
        t.subrange(0, k + 1) + trimmed(t.subrange(k + 1, t.len() as int)),
        line_no,
    );
    if let Some(c) = st.clause {
        lemma_with_child(lines, c, node);
    } else if let Some(a) = st.article {
        lemma_with_child(lines, a, node);
    }
}

proof fn lemma_continuation(lines: Seq<Seq<char>>, st: ParseState, t: Seq<char>)
    requires
        state_sound(lines, st),
    ensures
        state_sound(lines, continuation(st, t)),
{
    if st.started {
        if let Some(c) = st.clause {
            lemma_with_line(lines, c, t);
        } else if let Some(a) = st.article {
            lemma_with_line(lines, a, t);
        } else if let Some(c) = st.chapter {
            lemma_with_line(lines, c, t);
        }
    }
}

proof fn lemma_step_other(lines: Seq<Seq<char>>, st: ParseState, t: Seq<char>, line_no: nat)
    requires
        state_sound(lines, st),
    ensures
        state_sound(lines, step_other(st, t, line_no)),
{
    lemma_continuation(lines, st, t);
    if !st.in_toc {
        if let Some(k) = heading_at(t, '编') {
            lemma_open_heading(lines, st, NodeType::Part, t, k, line_no);
        } else if heading_at(t, '章') is Some && !is_reference(
            t.subrange(heading_at(t, '章')->0 + 1, t.len() as int),
        ) {
            lemma_open_heading(lines, st, NodeType::Chapter, t, heading_at(t, '章')->0, line_no);
        } else if let Some(k) = heading_at(t, '节') {
            lemma_open_heading(lines, st, NodeType::Section, t, k, line_no);
        } else if clause_at(t) is Some && !is_reference(
            t.subrange(clause_at(t)->0 + 1, t.len() as int),
        ) {
            lemma_open_clause(lines, st, t, clause_at(t)->0, line_no);
        } else if let Some(k) = item_at(t) {
            lemma_add_item(lines, st, t, k, line_no);
        }
    }
}

proof fn lemma_step(lines: Seq<Seq<char>>, st: ParseState, line_no: nat)
    requires
        state_sound(lines, st),
        1 <= line_no <= lines.len(),
    ensures
        state_sound(lines, step(st, lines[line_no - 1], line_no)),
{
    let line = lines[line_no - 1];
    let t = trimmed(line);
    if t.len() > 0 {
        let s1 = if !st.started && crate::ast::is_toc_title(t) {
            ParseState { in_toc: true, ..st }
        } else {
            st
        };
        assert(state_sound(lines, s1));
        if crate::ast::article_breaks(s1, line, t) {
            lemma_open_article(lines, s1, line_no);
        } else {
            let s2 = toc_check(s1, line, t);
            assert(state_sound(lines, s2));
            lemma_step_other(lines, s2, t, line_no);
        }
    }
}

proof fn lemma_run(lines: Seq<Seq<char>>, n: nat)
    requires
        n <= lines.len(),
    ensures
        state_sound(lines, run(lines, n)),
    decreases n,
{
    if n > 0 {
        lemma_run(lines, (n - 1) as nat);
        lemma_step(lines, run(lines, (n - 1) as nat), n);
    }
}

proof fn lemma_finish(lines: Seq<Seq<char>>, st: ParseState)
    requires
        state_sound(lines, st),
    ensures
        all_sound(lines, finish(st).children),
{
    lemma_close_to(lines, st, NodeType::Part);
    let s1 = close_to(st, NodeType::Part);
    if s1.preamble.len() > 0 {
        let p = preamble_node(s1.preamble);
        lemma_leaf(
            lines,
            NodeType::Preamble,
            "0"@,
            Some("序言/目录"@),
            crate::text::joined(s1.preamble),
            1,
        );
        let out = seq![p] + s1.root;
        assert forall|i: int| 0 <= i < out.len() implies sound(lines, #[trigger] out[i]) by {
            if i > 0 {
                assert(out[i] == s1.root[i - 1]);
            }
        }
    }
}

proof fn lemma_pruned_children_sound(lines: Seq<Seq<char>>, n: NodeView, k: nat)
    requires
        k <= n.children.len(),
        forall|i: int|
            0 <= i < n.children.len() ==> level((#[trigger] n.children[i]).node_type) > level(
                n.node_type,
            ) && sound(lines, n.children[i]),
    ensures
        forall|i: int|
            0 <= i < pruned_children(n, k).len() ==> level(
                (#[trigger] pruned_children(n, k)[i]).node_type,
            ) > level(n.node_type) && sound(lines, pruned_children(n, k)[i]),
    decreases n, k,
{
    if k > 0 {
        lemma_pruned_children_sound(lines, n, (k - 1) as nat);
        lemma_pruned_sound(lines, n.children[k - 1]);
        let head = pruned_children(n, (k - 1) as nat);
        let c = pruned(n.children[k - 1]);
        assert forall|i: int| 0 <= i < pruned_children(n, k).len() implies level(
            (#[trigger] pruned_children(n, k)[i]).node_type,
        ) > level(n.node_type) && sound(lines, pruned_children(n, k)[i]) by {
            if i < head.len() {
                assert(pruned_children(n, k)[i] == head[i]);
            } else {
                assert(pruned_children(n, k)[i] == c);
            }
        }
    }
}

proof fn lemma_pruned_sound(lines: Seq<Seq<char>>, n: NodeView)
    requires
        sound(lines, n),
    ensures
        sound(lines, pruned(n)),
    decreases n, n.children.len() + 1,
{
    lemma_pruned_children_sound(lines, n, n.children.len());
    assert(pruned(n).children == pruned_children(n, n.children.len()));
}

proof fn lemma_pruned_root_children(lines: Seq<Seq<char>>, n: NodeView, k: nat)
    requires
        k <= n.children.len(),
        all_sound(lines, n.children),
    ensures
        all_sound(lines, pruned_children(n, k)),
    decreases k,
{
    if k > 0 {
        lemma_pruned_root_children(lines, n, (k - 1) as nat);
        lemma_pruned_sound(lines, n.children[k - 1]);
        let head = pruned_children(n, (k - 1) as nat);
        let c = pruned(n.children[k - 1]);
        assert forall|i: int| 0 <= i < pruned_children(n, k).len() implies sound(
            lines,
            #[trigger] pruned_children(n, k)[i],
        ) by {
            if i < head.len() {
                assert(pruned_children(n, k)[i] == head[i]);
            } else {
                assert(pruned_children(n, k)[i] == c);
            }
        }
    }
}

/// In the tree of a text every node below the root lies deeper than its
/// parent, every article bears the number that its heading shows on the line
/// on which it starts, and no part, chapter or section is empty.
pub proof fn lemma_parsed_tree(text: Seq<char>)
    ensures
        all_sound(lines_of(text), parse_spec(text).children),
        no_empty_structure(parse_spec(text)),
        parse_spec(text).number == "root"@,
{
    let lines = lines_of(text);
    lemma_run(lines, lines.len());
    let st = run(lines, lines.len());
    lemma_finish(lines, st);
    let root = finish(st);
    lemma_pruned_root_children(lines, root, root.children.len());
    assert(pruned(root).children == pruned_children(root, root.children.len()));
    lemma_pruned_clean(root);
}

/// Whether an article of the flat list, where it is an article and no
/// preamble, bears the number shown on the line on which it starts.
pub open spec fn info_shown(lines: Seq<Seq<char>>, info: InfoView) -> bool {
    info.node_type == NodeType::Article ==> shown_on_line(lines, info.start_line, info.number)
}

proof fn lemma_flat_children(lines: Seq<Seq<char>>, n: NodeView, stack: Seq<Seq<char>>, k: nat)
    requires
        k <= n.children.len(),
        all_sound(lines, n.children),
    ensures
        forall|i: int|
            0 <= i < flat_children(n, stack, k).len() ==> info_shown(
                lines,
                #[trigger] flat_children(n, stack, k)[i],
            ),
    decreases n, k,
{
    if k > 0 {
        lemma_flat_children(lines, n, stack, (k - 1) as nat);
        lemma_flat(lines, n.children[k - 1], stack);
        let head = flat_children(n, stack, (k - 1) as nat);
        let tail = flat(n.children[k - 1], stack);
        assert forall|i: int| 0 <= i < flat_children(n, stack, k).len() implies info_shown(
            lines,
            #[trigger] flat_children(n, stack, k)[i],
        ) by {
            if i < head.len() {
                assert(flat_children(n, stack, k)[i] == head[i]);
            } else {
                assert(flat_children(n, stack, k)[i] == tail[i - head.len()]);
            }
        }
    }
}

proof fn lemma_flat(lines: Seq<Seq<char>>, n: NodeView, parents: Seq<Seq<char>>)
    requires
        sound(lines, n),
    ensures
        forall|i: int|
            0 <= i < flat(n, parents).len() ==> info_shown(lines, #[trigger] flat(n, parents)[i]),
    decreases n, n.children.len() + 1,
{
    assert(all_sound(lines, n.children));
    let stack = child_parents(n, parents);
    lemma_flat_children(lines, n, stack, n.children.len());
    let below = flat_children(n, stack, n.children.len());
    assert forall|i: int| 0 <= i < flat(n, parents).len() implies info_shown(
        lines,
        #[trigger] flat(n, parents)[i],
    ) by {
        if is_listed(n) {
            if i == 0 {
                assert(flat(n, parents)[i] == info_of(n, parents));
            } else {
                assert(flat(n, parents)[i] == below[i - 1]);
            }
        } else {
            assert(flat(n, parents)[i] == below[i]);
        }
    }
}

/// Every article of the flat list of a text bears the number that the text
/// shows between `第` and `条` at the start of the line on which the article
/// starts.
pub proof fn lemma_article_numbers(text: Seq<char>)
    ensures
        forall|i: int|
            0 <= i < flat_articles(parse_spec(text)).len() ==> info_shown(
                lines_of(text),
                #[trigger] flat_articles(parse_spec(text))[i],
            ),
{
    let lines = lines_of(text);
    let root = parse_spec(text);
    lemma_parsed_tree(text);
    let stack = child_parents(root, Seq::empty());
    lemma_flat_children(lines, root, stack, root.children.len());
    assert(!is_listed(root));
    assert(flat_articles(root) =~= flat_children(root, stack, root.children.len()));
}

} // verus!
