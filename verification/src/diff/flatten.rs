//! From the tree of a text to the list of its articles, in document order.

use vstd::prelude::*;
use crate::ast::is_structural;
use crate::models::{
    clone_opt_string, clone_strings, infos_view, lemma_node_children, node_view, nodes_view,
    ArticleInfo, ArticleNode, InfoView, NodeType, NodeView,
};
use crate::text::{append_chars, push_char, string_of, strings_view, to_chars};

verus! {

/// The text gathered so far with the text `cc` of a child of kind `kind`
/// added: on a line of its own, and indented by two ideographic spaces where
/// the child is a clause or an item that brings no indentation. An empty
/// child adds nothing.
pub open spec fn add_child_content(head: Seq<char>, kind: NodeType, cc: Seq<char>) -> Seq<char> {
    if cc.len() == 0 {
        head
    } else {
        let h1 = if head.len() > 0 && head.last() != '\n' {
            head.push('\n')
        } else {
            head
        };
        let h2 = if (kind == NodeType::Clause || kind == NodeType::Item) && cc[0] != ' ' && cc[0]
            != '\u{3000}' {
            h1.push('\u{3000}').push('\u{3000}')
        } else {
            h1
        };
        h2 + cc
    }
}

/// The content of a node followed by that of all its descendants.
pub open spec fn all_content(n: NodeView) -> Seq<char>
    decreases n, n.children.len() + 1,
{
    content_upto(n, n.children.len())
}

/// The content of a node followed by that of its first `k` children and
/// their descendants.
pub open spec fn content_upto(n: NodeView, k: nat) -> Seq<char>
    decreases n, k,
{
    if k == 0 || k > n.children.len() {
        n.content
    } else {
        add_child_content(
            content_upto(n, (k - 1) as nat),
            n.children[k - 1].node_type,
            all_content(n.children[k - 1]),
        )
    }
}

/// The label under which a part, chapter or section appears among the
/// ancestors of an article: its number, and its title where it has one.
pub open spec fn label_of(n: NodeView) -> Seq<char> {
    match n.title {
        Some(t) => n.number.push(' ') + t,
        None => n.number,
    }
}

/// Whether a node becomes an article of the flat list: it is an article or a
/// preamble, and not the root.
pub open spec fn is_listed(n: NodeView) -> bool {
    (n.node_type == NodeType::Article || n.node_type == NodeType::Preamble) && n.number != "root"@
}

/// The article that the node `n` under the ancestors `parents` becomes.
pub open spec fn info_of(n: NodeView, parents: Seq<Seq<char>>) -> InfoView {
    InfoView {
        number: n.number,
        content: all_content(n),
        title: n.title,
        start_line: n.start_line,
        node_type: n.node_type,
        parents,
    }
}

/// The ancestors that the children of `n` have, where `n` has `parents`.
pub open spec fn child_parents(n: NodeView, parents: Seq<Seq<char>>) -> Seq<Seq<char>> {
    if is_structural(n.node_type) {
        parents.push(label_of(n))
    } else {
        parents
    }
}

/// The articles at and below `n`, in document order.
pub open spec fn flat(n: NodeView, parents: Seq<Seq<char>>) -> Seq<InfoView>
    decreases n, n.children.len() + 1,
{
    let own = if is_listed(n) {
        seq![info_of(n, parents)]
    } else {
        Seq::empty()
    };
    own + flat_children(n, child_parents(n, parents), n.children.len())
}

/// The articles at and below the first `k` children of `n`.
pub open spec fn flat_children(n: NodeView, stack: Seq<Seq<char>>, k: nat) -> Seq<InfoView>
    decreases n, k,
{
    if k == 0 || k > n.children.len() {
        Seq::empty()
    } else {
        flat_children(n, stack, (k - 1) as nat) + flat(n.children[k - 1], stack)
    }
}

/// The articles of a tree.
pub open spec fn flat_articles(root: NodeView) -> Seq<InfoView> {
    flat(root, Seq::empty())
}

/// The content of a node and of all its descendants, as characters.
pub fn gather_content(node: &ArticleNode) -> (out: Vec<char>)
    ensures
        out@ == all_content(node_view(*node)),
    decreases node,
{
    let mut out = to_chars(node.content.as_str());
    let mut i: usize = 0;
    proof {
        lemma_node_children(*node);
    }
    while i < node.children.len()
        invariant
            i <= node.children@.len(),
            node_view(*node).children == nodes_view(node.children@),
            out@ == content_upto(node_view(*node), i as nat),
        decreases node.children.len() - i,
    {
        let child = &node.children[i];
        assert(nodes_view(node.children@)[i as int] == node_view(node.children@[i as int]));
        let cc = gather_content(child);
        if cc.len() > 0 {
            if out.len() > 0 && out[out.len() - 1] != '\n' {
                out.push('\n');
            }
            if (child.node_type == NodeType::Clause || child.node_type == NodeType::Item) && cc[0]
                != ' ' && cc[0] != '\u{3000}' {
                out.push('\u{3000}');
                out.push('\u{3000}');
            }
            append_chars(&mut out, &cc);
        }
        i += 1;
    }
    out
}

/// The content of a node and of all its descendants: each child on a line of
/// its own, clauses and items indented.
pub fn get_all_content(node: &ArticleNode) -> (s: String)
    ensures
        s@ == all_content(node_view(*node)),
{
    let chars = gather_content(node);
    string_of(&chars)
}

fn make_label(node: &ArticleNode) -> (label: String)
    ensures
        label@ == label_of(node_view(*node)),
{
    match &node.title {
        Some(title) => {
            let mut label = node.number.clone();
            push_char(&mut label, ' ');
            label.append(title.as_str());
            label
        },
        None => node.number.clone(),
    }
}

/// Adds to `list` the articles at and below `node`, whose ancestors bear the
/// labels `parent_stack`.
pub fn collect_articles_recursive(
    node: &ArticleNode,
    list: &mut Vec<ArticleInfo>,
    parent_stack: &Vec<String>,
)
    ensures
        infos_view(final(list)@) == infos_view(old(list)@) + flat(
            node_view(*node),
            strings_view(parent_stack@),
        ),
    decreases node,
{
    let ghost start = infos_view(list@);
    let ghost n = node_view(*node);
    let ghost parents = strings_view(parent_stack@);
    proof {
        lemma_node_children(*node);
        reveal_strlit("root");
    }
    let listed = (node.node_type == NodeType::Article || node.node_type == NodeType::Preamble)
        && !crate::text::same_str(node.number.as_str(), "root");
    if listed {
        let info = ArticleInfo {
            number: node.number.clone(),
            content: get_all_content(node),
            title: clone_opt_string(&node.title),
            start_line: node.start_line,
            node_type: node.node_type,
            parents: clone_strings(parent_stack),
        };
        list.push(info);
        assert(infos_view(list@) =~= start + seq![info_of(n, parents)]);
    } else {
        assert(infos_view(list@) =~= start + Seq::<InfoView>::empty());
    }
    let mut stack = clone_strings(parent_stack);
    let structural = node.node_type == NodeType::Part || node.node_type == NodeType::Chapter
        || node.node_type == NodeType::Section;
    if structural {
        let label = make_label(node);
        let ghost before = strings_view(stack@);
        stack.push(label);
        assert(strings_view(stack@) =~= before.push(label@));
    }
    let ghost own = if is_listed(n) {
        seq![info_of(n, parents)]
    } else {
        Seq::<InfoView>::empty()
    };
    let mut i: usize = 0;
    assert(infos_view(list@) =~= start + own + flat_children(n, strings_view(stack@), 0));
    while i < node.children.len()
        invariant
            i <= node.children@.len(),
            n == node_view(*node),
            n.children == nodes_view(node.children@),
            strings_view(stack@) == child_parents(n, parents),
            infos_view(list@) == start + own + flat_children(
                n,
                strings_view(stack@),
                i as nat,
            ),
        decreases node.children.len() - i,
    {
        assert(nodes_view(node.children@)[i as int] == node_view(node.children@[i as int]));
        let ghost before = infos_view(list@);
        collect_articles_recursive(&node.children[i], list, &stack);
        assert(start + own + flat_children(n, strings_view(stack@), i as nat) + flat(
            n.children[i as int],
            strings_view(stack@),
        ) =~= start + own + flat_children(n, strings_view(stack@), (i + 1) as nat));
        i += 1;
    }
    assert(start + own + flat_children(n, child_parents(n, parents), n.children.len()) =~= start
        + flat(n, parents));
}

/// The articles of a tree, in document order, each with the labels of its
/// ancestors.
pub fn flatten_articles(node: &ArticleNode) -> (articles: Vec<ArticleInfo>)
    ensures
        infos_view(articles@) == flat_articles(node_view(*node)),
{
    let mut articles: Vec<ArticleInfo> = Vec::new();
    let parent_stack: Vec<String> = Vec::new();
    assert(strings_view(parent_stack@) =~= Seq::<Seq<char>>::empty());
    assert(infos_view(articles@) =~= Seq::<InfoView>::empty());
    collect_articles_recursive(node, &mut articles, &parent_stack);
    assert(Seq::<InfoView>::empty() + flat_articles(node_view(*node)) =~= flat_articles(
        node_view(*node),
    ));
    articles
}

} // verus!
