//! The structural parser: from the text of a law to its tree of parts,
//! chapters, sections, articles, clauses and items.
//!
//! The text is read line by line. `step` says what one line does to the
//! parser's state, `parse_spec` what tree a whole text gives.

use vstd::prelude::*;
use crate::models::{
    lemma_node_children, node_view, nodes_view, opt_string_view, ArticleNode, NodeType, NodeView,
};
use crate::pattern::{is_match, regex_is_match};
use crate::text::{
    contains, contains_sub, copy_range, has_prefix, join_lines, joined, lines_of, lines_view,
    push_char, same_chars, skip_spaces, skip_spaces_from, split_lines, starts_with, string_of,
    string_of_range, to_chars, trim, trimmed,
};

verus! {

/// The three sets of characters that a number may be written with.
#[derive(Debug, Clone, Copy, PartialEq, Eq, Structural)]
pub enum NumeralClass {
    /// Numbers of parts, chapters, sections and articles.
    Heading,
    /// Numbers of clauses.
    Clause,
    /// Numbers of items.
    Item,
}

/// The Chinese numeral characters from zero to ten thousand.
pub open spec fn is_cn_numeral(c: char) -> bool {
    c == '一' || c == '二' || c == '三' || c == '四' || c == '五' || c == '六' || c == '七' || c
        == '八' || c == '九' || c == '十' || c == '百' || c == '千' || c == '万' || c == '零'
}

fn cn_numeral(c: char) -> (r: bool)
    ensures
        r == is_cn_numeral(c),
{
    c == '一' || c == '二' || c == '三' || c == '四' || c == '五' || c == '六' || c == '七' || c
        == '八' || c == '九' || c == '十' || c == '百' || c == '千' || c == '万' || c == '零'
}

/// The expression that matches exactly one decimal digit of any script.
pub open spec fn digit_pattern() -> Seq<char> {
    "^\\d$"@
}

/// Whether `c` is one of the ten digits `0` to `9`.
pub open spec fn is_ascii_digit(c: char) -> bool {
    48 <= c as u32 <= 57
}

/// Whether `c` is a decimal digit: `0` to `9`, or a character outside ASCII
/// that the expression `\d` accepts.
pub open spec fn is_decimal_digit(c: char) -> bool {
    if (c as u32) < 128 {
        is_ascii_digit(c)
    } else {
        regex_is_match(digit_pattern(), seq![c]) == Some(true)
    }
}

fn ascii_digit(c: char) -> (r: bool)
    ensures
        r == is_ascii_digit(c),
{
    let n: u32 = c as u32;
    48 <= n && n <= 57
}

fn decimal_digit(c: char) -> (r: bool)
    ensures
        r == is_decimal_digit(c),
{
    let n: u32 = c as u32;
    if n < 128 {
        48 <= n && n <= 57
    } else {
        let mut s = String::new();
        push_char(&mut s, c);
        assert(s@ =~= seq![c]);
        match is_match("^\\d$", s.as_str()) {
            Some(b) => b,
            None => false,
        }
    }
}

/// Whether `c` may stand in a number of the given class.
pub open spec fn in_class(class: NumeralClass, c: char) -> bool {
    match class {
        NumeralClass::Heading => is_cn_numeral(c) || c == '两' || is_decimal_digit(c),
        NumeralClass::Clause => is_cn_numeral(c) || is_decimal_digit(c),
        NumeralClass::Item => is_decimal_digit(c),
    }
}

fn class_has(class: NumeralClass, c: char) -> (r: bool)
    ensures
        r == in_class(class, c),
{
    match class {
        NumeralClass::Heading => cn_numeral(c) || c == '两' || decimal_digit(c),
        NumeralClass::Clause => cn_numeral(c) || decimal_digit(c),
        NumeralClass::Item => decimal_digit(c),
    }
}

/// Index of the first character at or after `i` that is not of the class, or
/// the length of `s`.
pub open spec fn run_end(s: Seq<char>, i: int, class: NumeralClass) -> int
    decreases s.len() - i,
{
    if 0 <= i < s.len() && in_class(class, s[i]) {
        run_end(s, i + 1, class)
    } else {
        i
    }
}

/// A run of numeral characters ends inside the text, holds only characters
/// of its class, and is followed by none.
pub proof fn lemma_run_end(s: Seq<char>, i: int, class: NumeralClass)
    requires
        0 <= i <= s.len(),
    ensures
        i <= run_end(s, i, class) <= s.len(),
        forall|j: int| i <= j < run_end(s, i, class) ==> in_class(class, #[trigger] s[j]),
        run_end(s, i, class) < s.len() ==> !in_class(class, s[run_end(s, i, class)]),
    decreases s.len() - i,
{
    if i < s.len() && in_class(class, s[i]) {
        lemma_run_end(s, i + 1, class);
    }
}

fn scan_run(s: &Vec<char>, from: usize, class: NumeralClass) -> (r: usize)
    requires
        from <= s@.len(),
    ensures
        r == run_end(s@, from as int, class),
        from <= r <= s@.len(),
{
    let mut i: usize = from;
    while i < s.len() && class_has(class, s[i])
        invariant
            from <= i <= s@.len(),
            run_end(s@, from as int, class) == run_end(s@, i as int, class),
        decreases s.len() - i,
    {
        i += 1;
    }
    i
}

/// Whether `c` may stand in a number of the given class where only `0` to
/// `9` count as digits.
pub open spec fn in_ascii_class(class: NumeralClass, c: char) -> bool {
    match class {
        NumeralClass::Heading => is_cn_numeral(c) || c == '两' || is_ascii_digit(c),
        NumeralClass::Clause => is_cn_numeral(c) || is_ascii_digit(c),
        NumeralClass::Item => is_ascii_digit(c),
    }
}

/// Index of the first character at or after `i` that is not of the class
/// where only `0` to `9` count as digits, or the length of `s`.
pub open spec fn ascii_run_end(s: Seq<char>, i: int, class: NumeralClass) -> int
    decreases s.len() - i,
{
    if 0 <= i < s.len() && in_ascii_class(class, s[i]) {
        ascii_run_end(s, i + 1, class)
    } else {
        i
    }
}

/// Whether the expression for digits accepts no character of `s` that lies
/// outside ASCII.
pub open spec fn no_foreign_digit(s: Seq<char>) -> bool {
    forall|j: int|
        0 <= j < s.len() && (#[trigger] s[j]) as u32 >= 128 ==> regex_is_match(
            digit_pattern(),
            seq![s[j]],
        ) != Some(true)
}

/// In a text whose characters outside ASCII are no digits, a run of numeral
/// characters ends where it ends with `0` to `9` as the only digits.
pub proof fn lemma_run_end_ascii(s: Seq<char>, i: int, class: NumeralClass)
    requires
        no_foreign_digit(s),
        0 <= i <= s.len(),
    ensures
        run_end(s, i, class) == ascii_run_end(s, i, class),
    decreases s.len() - i,
{
    if i < s.len() {
        let c = s[i];
        assert(is_decimal_digit(c) == is_ascii_digit(c));
        assert(in_class(class, c) == in_ascii_class(class, c));
        if in_class(class, c) {
            lemma_run_end_ascii(s, i + 1, class);
        }
    }
}

/// Where `s` opens with a heading mark for `unit`, that is with `第`, a
/// number and `unit`: the index of `unit`. The number is `s[1..k]`.
pub open spec fn heading_at(s: Seq<char>, unit: char) -> Option<int> {
    if s.len() >= 3 && s[0] == '第' {
        let k = run_end(s, 1, NumeralClass::Heading);
        if 1 < k < s.len() && s[k] == unit {
            Some(k)
        } else {
            None
        }
    } else {
        None
    }
}

/// Where `s` opens with a clause mark, that is with a bracket, a number and a
/// closing bracket, round or full-width: the index of the closing bracket.
pub open spec fn clause_at(s: Seq<char>) -> Option<int> {
    if s.len() >= 3 && (s[0] == '（' || s[0] == '(') {
        let k = run_end(s, 1, NumeralClass::Clause);
        if 1 < k < s.len() && (s[k] == ')' || s[k] == '）') {
            Some(k)
        } else {
            None
        }
    } else {
        None
    }
}

/// Where `s` opens with an item mark, that is with digits and a full stop:
/// the index of the full stop.
pub open spec fn item_at(s: Seq<char>) -> Option<int> {
    let k = run_end(s, 0, NumeralClass::Item);
    if 0 < k < s.len() && s[k] == '.' {
        Some(k)
    } else {
        None
    }
}

/// An optional index as the optional integer that contracts speak of.
pub open spec fn opt_index(o: Option<usize>) -> Option<int> {
    match o {
        Some(k) => Some(k as int),
        None => None,
    }
}

fn heading_mark(s: &Vec<char>, unit: char) -> (r: Option<usize>)
    ensures
        opt_index(r) == heading_at(s@, unit),
        r is Some ==> 1 < r->0 < s@.len(),
{
    if s.len() >= 3 && s[0] == '第' {
        let k = scan_run(s, 1, NumeralClass::Heading);
        if 1 < k && k < s.len() && s[k] == unit {
            Some(k)
        } else {
            None
        }
    } else {
        None
    }
}

fn clause_mark(s: &Vec<char>) -> (r: Option<usize>)
    ensures
        opt_index(r) == clause_at(s@),
        r is Some ==> 1 < r->0 < s@.len(),
{
    if s.len() >= 3 && (s[0] == '（' || s[0] == '(') {
        let k = scan_run(s, 1, NumeralClass::Clause);
        if 1 < k && k < s.len() && (s[k] == ')' || s[k] == '）') {
            Some(k)
        } else {
            None
        }
    } else {
        None
    }
}

fn item_mark(s: &Vec<char>) -> (r: Option<usize>)
    ensures
        opt_index(r) == item_at(s@),
        r is Some ==> 0 < r->0 < s@.len(),
{
    let k = scan_run(s, 0, NumeralClass::Item);
    if 0 < k && k < s.len() && s[k] == '.' {
        Some(k)
    } else {
        None
    }
}

/// Whether `rest`, the text behind a mark, shows that the mark is a reference
/// inside a sentence and no heading: it opens with `规定` or with `之`.
pub open spec fn is_reference(rest: Seq<char>) -> bool {
    has_prefix(rest, seq!['规', '定']) || has_prefix(rest, seq!['之'])
}

fn reference(rest: &Vec<char>) -> (r: bool)
    ensures
        r == is_reference(rest@),
{
    let a: Vec<char> = vec!['规', '定'];
    let b: Vec<char> = vec!['之'];
    assert(a@ =~= seq!['规', '定']);
    assert(b@ =~= seq!['之']);
    starts_with(rest, &a) || starts_with(rest, &b)
}

/// Whether the trimmed line `t` announces a table of contents.
pub open spec fn is_toc_title(t: Seq<char>) -> bool {
    contains_sub(t, seq!['目', '录']) || t == seq!['目', ' ', '录']
}

fn toc_title(t: &Vec<char>) -> (r: bool)
    ensures
        r == is_toc_title(t@),
{
    let a: Vec<char> = vec!['目', '录'];
    let b: Vec<char> = vec!['目', ' ', '录'];
    assert(a@ =~= seq!['目', '录']);
    assert(b@ =~= seq!['目', ' ', '录']);
    contains(t, &a) || same_chars(t, &b)
}

/// Whether `t` opens with the mark of a part, a chapter or a section.
pub open spec fn is_high_heading(t: Seq<char>) -> bool {
    heading_at(t, '章') is Some || heading_at(t, '节') is Some || heading_at(t, '编') is Some
}

/// Whether `line` looks like an entry of a table of contents: it holds dot
/// leaders, ends in a page number, is an indented heading, or is a short
/// heading of a part, chapter or section.
pub open spec fn likely_toc_entry(line: Seq<char>) -> bool {
    let t = trimmed(line);
    if t.len() == 0 {
        false
    } else if contains_sub(t, seq!['.', '.', '.']) || contains_sub(t, seq!['·', '·', '·'])
        || contains_sub(t, seq!['.', '.']) || is_ascii_digit(t.last()) {
        true
    } else {
        let indented = line.len() > 0 && (line[0] == ' ' || line[0] == '\u{3000}' || line[0]
            == '\t');
        let high = is_high_heading(t);
        let structural = high || heading_at(t, '条') is Some;
        (indented && structural) || (high && t.len() < 30)
    }
}

fn high_heading(t: &Vec<char>) -> (r: bool)
    ensures
        r == is_high_heading(t@),
{
    heading_mark(t, '章').is_some() || heading_mark(t, '节').is_some() || heading_mark(
        t,
        '编',
    ).is_some()
}

fn toc_entry(line: &Vec<char>) -> (r: bool)
    ensures
        r == likely_toc_entry(line@),
{
    let t = trim(line);
    if t.len() == 0 {
        return false;
    }
    let dots3: Vec<char> = vec!['.', '.', '.'];
    let mid3: Vec<char> = vec!['·', '·', '·'];
    let dots2: Vec<char> = vec!['.', '.'];
    assert(dots3@ =~= seq!['.', '.', '.']);
    assert(mid3@ =~= seq!['·', '·', '·']);
    assert(dots2@ =~= seq!['.', '.']);
    if contains(&t, &dots3) || contains(&t, &mid3) || contains(&t, &dots2) || ascii_digit(
        t[t.len() - 1],
    ) {
        return true;
    }
    let indented = line.len() > 0 && (line[0] == ' ' || line[0] == '\u{3000}' || line[0] == '\t');
    let high = high_heading(&t);
    let structural = high || heading_mark(&t, '条').is_some();
    (indented && structural) || (high && t.len() < 30)
}

/// A node without children.
pub open spec fn leaf_view(
    kind: NodeType,
    number: Seq<char>,
    title: Option<Seq<char>>,
    content: Seq<char>,
    line: nat,
) -> NodeView {
    NodeView {
        node_type: kind,
        number,
        title,
        content,
        children: Seq::empty(),
        start_line: line,
    }
}

fn leaf(kind: NodeType, number: String, title: Option<String>, content: String, line: usize) -> (r:
    ArticleNode)
    ensures
        node_view(r) == leaf_view(kind, number@, opt_string_view(title), content@, line as nat),
{
    let r = ArticleNode {
        node_type: kind,
        number,
        title,
        content,
        children: Vec::new(),
        start_line: line,
    };
    proof {
        lemma_node_children(r);
        assert(nodes_view(r.children@) =~= Seq::<NodeView>::empty());
    }
    r
}

/// `parent` with `child` as its new last child.
pub open spec fn with_child(parent: NodeView, child: NodeView) -> NodeView {
    NodeView { children: parent.children.push(child), ..parent }
}

/// `node` with the line `t` added to its content, after a line feed.
pub open spec fn with_line(node: NodeView, t: Seq<char>) -> NodeView {
    NodeView { content: node.content.push('\n') + t, ..node }
}

fn attach(parent: &mut ArticleNode, child: ArticleNode)
    ensures
        node_view(*final(parent)) == with_child(node_view(*old(parent)), node_view(child)),
{
    proof {
        lemma_node_children(*parent);
    }
    parent.children.push(child);
    proof {
        lemma_node_children(*parent);
        assert(nodes_view(parent.children@) =~= nodes_view(old(parent).children@).push(
            node_view(child),
        ));
    }
}

fn add_line(node: &mut ArticleNode, t: &Vec<char>)
    ensures
        node_view(*final(node)) == with_line(node_view(*old(node)), t@),
{
    proof {
        lemma_node_children(*node);
    }
    push_char(&mut node.content, '\n');
    let s = string_of(t);
    node.content.append(s.as_str());
    proof {
        lemma_node_children(*node);
    }
}

/// The node that holds what stood before the first structural boundary.
pub open spec fn preamble_node(lines: Seq<Seq<char>>) -> NodeView {
    leaf_view(NodeType::Preamble, "0"@, Some("序言/目录"@), joined(lines), 1)
}

fn make_preamble(lines: &Vec<Vec<char>>) -> (r: ArticleNode)
    ensures
        node_view(r) == preamble_node(lines_view(lines@)),
{
    let content = join_lines(lines);
    leaf(
        NodeType::Preamble,
        String::from_str("0"),
        Some(String::from_str("序言/目录")),
        string_of(&content),
        1,
    )
}

/// The state of the parser between two lines.
pub struct ParseState {
    /// The children that the root has so far.
    pub root: Seq<NodeView>,
    /// The open node of each level, if there is one.
    pub part: Option<NodeView>,
    pub chapter: Option<NodeView>,
    pub section: Option<NodeView>,
    pub article: Option<NodeView>,
    pub clause: Option<NodeView>,
    /// The lines read before any structure began.
    pub preamble: Seq<Seq<char>>,
    /// Whether a structural boundary has been met.
    pub started: bool,
    /// Whether the lines read now belong to a table of contents.
    pub in_toc: bool,
    /// The headings met inside the table of contents, each as its unit and
    /// number.
    pub seen: Seq<(char, Seq<char>)>,
}

/// The state before the first line.
pub open spec fn initial_state() -> ParseState {
    ParseState {
        root: Seq::empty(),
        part: None,
        chapter: None,
        section: None,
        article: None,
        clause: None,
        preamble: Seq::empty(),
        started: false,
        in_toc: false,
        seen: Seq::empty(),
    }
}

/// Marks the structure as begun: what was buffered as preamble becomes a
/// node of the root, and a table of contents, if one was open, is over.
pub open spec fn begin_structure(st: ParseState) -> ParseState {
    if !st.started && st.preamble.len() > 0 {
        ParseState {
            root: st.root.push(preamble_node(st.preamble)),
            preamble: Seq::empty(),
            started: true,
            in_toc: false,
            ..st
        }
    } else {
        ParseState { started: true, in_toc: false, ..st }
    }
}

/// Closes the open clause: it becomes a child of the open article, and is
/// dropped where no article is open.
pub open spec fn flush_clause(st: ParseState) -> ParseState {
    match (st.clause, st.article) {
        (Some(c), Some(a)) => ParseState { article: Some(with_child(a, c)), clause: None, ..st },
        _ => ParseState { clause: None, ..st },
    }
}

/// Closes the open article: it becomes a child of the innermost open
/// section, chapter or part, or of the root.
pub open spec fn flush_article(st: ParseState) -> ParseState {
    match st.article {
        Some(a) => {
            if let Some(s) = st.section {
                ParseState { section: Some(with_child(s, a)), article: None, ..st }
            } else if let Some(c) = st.chapter {
                ParseState { chapter: Some(with_child(c, a)), article: None, ..st }
            } else if let Some(p) = st.part {
                ParseState { part: Some(with_child(p, a)), article: None, ..st }
            } else {
                ParseState { root: st.root.push(a), article: None, ..st }
            }
        },
        None => st,
    }
}

/// Closes the open section: it becomes a child of the open chapter or part,
/// or of the root.
pub open spec fn flush_section(st: ParseState) -> ParseState {
    match st.section {
        Some(s) => {
            if let Some(c) = st.chapter {
                ParseState { chapter: Some(with_child(c, s)), section: None, ..st }
            } else if let Some(p) = st.part {
                ParseState { part: Some(with_child(p, s)), section: None, ..st }
            } else {
                ParseState { root: st.root.push(s), section: None, ..st }
            }
        },
        None => st,
    }
}

/// Closes the open chapter: it becomes a child of the open part, or of the
/// root.
pub open spec fn flush_chapter(st: ParseState) -> ParseState {
    match st.chapter {
        Some(c) => {
            if let Some(p) = st.part {
                ParseState { part: Some(with_child(p, c)), chapter: None, ..st }
            } else {
                ParseState { root: st.root.push(c), chapter: None, ..st }
            }
        },
        None => st,
    }
}

/// Closes the open part: it becomes a child of the root.
pub open spec fn flush_part(st: ParseState) -> ParseState {
    match st.part {
        Some(p) => ParseState { root: st.root.push(p), part: None, ..st },
        None => st,
    }
}

/// Closes every open node from the clause up to the level of `kind`.
pub open spec fn close_to(st: ParseState, kind: NodeType) -> ParseState {
    let s1 = flush_article(flush_clause(st));
    match kind {
        NodeType::Part => flush_part(flush_chapter(flush_section(s1))),
        NodeType::Chapter => flush_chapter(flush_section(s1)),
        NodeType::Section => flush_section(s1),
        _ => s1,
    }
}

/// The text of `t` behind index `k` and the white space that follows it.
pub open spec fn after_spaces(t: Seq<char>, k: int) -> Seq<char> {
    t.subrange(skip_spaces(t, k + 1), t.len() as int)
}

/// Opens an article at the heading mark that ends at `k` of the trimmed line
/// `t`: the number is what stands between `第` and `条`, the content what
/// follows the mark.
pub open spec fn open_article(st: ParseState, t: Seq<char>, k: int, line_no: nat) -> ParseState {
    let s1 = close_to(begin_structure(st), NodeType::Article);
    let node = leaf_view(
        NodeType::Article,
        t.subrange(1, k),
        None,
        trimmed(after_spaces(t, k)),
        line_no,
    );
    ParseState { article: Some(node), clause: None, ..s1 }
}

/// Opens a part, a chapter or a section at the heading mark that ends at `k`.
/// Only a chapter has a title: what follows the mark, where anything does.
pub open spec fn open_heading(st: ParseState, kind: NodeType, t: Seq<char>, k: int, line_no: nat) -> ParseState {
    let s1 = close_to(begin_structure(st), kind);
    let rest = t.subrange(k + 1, t.len() as int);
    let title = if kind == NodeType::Chapter && rest.len() > 0 {
        Some(trimmed(rest))
    } else {
        None
    };
    let node = leaf_view(kind, t.subrange(1, k), title, Seq::empty(), line_no);
    match kind {
        NodeType::Part => ParseState {
            part: Some(node),
            chapter: None,
            section: None,
            article: None,
            clause: None,
            ..s1
        },
        NodeType::Chapter => ParseState {
            chapter: Some(node),
            section: None,
            article: None,
            clause: None,
            ..s1
        },
        _ => ParseState { section: Some(node), article: None, clause: None, ..s1 },
    }
}

/// Opens a clause at the mark that ends at `k`. Its content keeps the mark.
pub open spec fn open_clause(st: ParseState, t: Seq<char>, k: int, line_no: nat) -> ParseState {
    let s1 = flush_clause(begin_structure(st));
    let node = leaf_view(
        NodeType::Clause,
        t.subrange(1, k),
        None,
        t.subrange(0, k + 1) + trimmed(t.subrange(k + 1, t.len() as int)),
        line_no,
    );
    ParseState { clause: Some(node), ..s1 }
}

/// Adds an item to the open clause, else to the open article; without either
/// the item is dropped. Its content keeps the mark.
pub open spec fn add_item(st: ParseState, t: Seq<char>, k: int, line_no: nat) -> ParseState {
    let node = leaf_view(
        NodeType::Item,
        t.subrange(0, k),
        None,
        t.subrange(0, k + 1) + trimmed(t.subrange(k + 1, t.len() as int)),
        line_no,
    );
    if let Some(c) = st.clause {
        ParseState { clause: Some(with_child(c, node)), ..st }
    } else if let Some(a) = st.article {
        ParseState { article: Some(with_child(a, node)), ..st }
    } else {
        st
    }
}

/// A line that opens nothing: before any structure it is buffered as
/// preamble, afterwards it continues the open clause, else the open article,
/// else the open chapter.
pub open spec fn continuation(st: ParseState, t: Seq<char>) -> ParseState {
    if !st.started {
        ParseState { preamble: st.preamble.push(t), ..st }
    } else if let Some(c) = st.clause {
        ParseState { clause: Some(with_line(c, t)), ..st }
    } else if let Some(a) = st.article {
        ParseState { article: Some(with_line(a, t)), ..st }
    } else if let Some(c) = st.chapter {
        ParseState { chapter: Some(with_line(c, t)), ..st }
    } else {
        st
    }
}

/// Whether the trimmed line `t` of `line` opens an article: it bears the mark
/// of one, is no reference, and inside a table of contents does not look like
/// an entry of it.
pub open spec fn article_breaks(st: ParseState, line: Seq<char>, t: Seq<char>) -> bool {
    match heading_at(t, '条') {
        Some(k) => !is_reference(after_spaces(t, k)) && (st.in_toc ==> !likely_toc_entry(line)),
        None => false,
    }
}

/// The unit of the heading that `t` opens with, of a chapter, a section or a
/// part, and the index where the mark ends.
pub open spec fn high_mark(t: Seq<char>) -> Option<(char, int)> {
    if let Some(k) = heading_at(t, '章') {
        Some(('章', k))
    } else if let Some(k) = heading_at(t, '节') {
        Some(('节', k))
    } else if let Some(k) = heading_at(t, '编') {
        Some(('编', k))
    } else {
        None
    }
}

/// What a heading of a part, chapter or section does inside a table of
/// contents: the table ends where a part or chapter comes a second time or
/// where the line does not look like an entry; otherwise the heading is
/// remembered.
pub open spec fn toc_check(st: ParseState, line: Seq<char>, t: Seq<char>) -> ParseState {
    if st.in_toc {
        match high_mark(t) {
            Some((unit, k)) => {
                let number = t.subrange(1, k);
                let repeat = unit != '节' && st.seen.contains((unit, number));
                if repeat || !likely_toc_entry(line) {
                    ParseState { in_toc: false, ..st }
                } else {
                    ParseState { seen: st.seen.push((unit, number)), ..st }
                }
            },
            None => st,
        }
    } else {
        st
    }
}

/// What a line that opens no article does.
pub open spec fn step_other(st: ParseState, t: Seq<char>, line_no: nat) -> ParseState {
    if st.in_toc {
        continuation(st, t)
    } else if let Some(k) = heading_at(t, '编') {
        open_heading(st, NodeType::Part, t, k, line_no)
    } else if heading_at(t, '章') is Some && !is_reference(
        t.subrange(heading_at(t, '章')->0 + 1, t.len() as int),
    ) {
        open_heading(st, NodeType::Chapter, t, heading_at(t, '章')->0, line_no)
    } else if let Some(k) = heading_at(t, '节') {
        open_heading(st, NodeType::Section, t, k, line_no)
    } else if clause_at(t) is Some && !is_reference(
        t.subrange(clause_at(t)->0 + 1, t.len() as int),
    ) {
        open_clause(st, t, clause_at(t)->0, line_no)
    } else if let Some(k) = item_at(t) {
        add_item(st, t, k, line_no)
    } else {
        continuation(st, t)
    }
}

/// What the line `line`, the `line_no`-th of the text, does to the state.
pub open spec fn step(st: ParseState, line: Seq<char>, line_no: nat) -> ParseState {
    let t = trimmed(line);
    if t.len() == 0 {
        st
    } else {
        let s1 = if !st.started && is_toc_title(t) {
            ParseState { in_toc: true, ..st }
        } else {
            st
        };
        if article_breaks(s1, line, t) {
            open_article(s1, t, heading_at(t, '条')->0, line_no)
        } else {
            step_other(toc_check(s1, line, t), t, line_no)
        }
    }
}

/// The state after the first `n` lines.
pub open spec fn run(lines: Seq<Seq<char>>, n: nat) -> ParseState
    decreases n,
{
    if n == 0 || n > lines.len() {
        initial_state()
    } else {
        step(run(lines, (n - 1) as nat), lines[n - 1], n)
    }
}

/// The root once every open node is closed. A preamble that was never
/// attached, because no structure began, becomes the first child.
pub open spec fn finish(st: ParseState) -> NodeView {
    let s1 = close_to(st, NodeType::Part);
    let children = if s1.preamble.len() > 0 {
        seq![preamble_node(s1.preamble)] + s1.root
    } else {
        s1.root
    };
    NodeView {
        node_type: NodeType::Article,
        number: "root"@,
        title: Some("Document Root"@),
        content: Seq::empty(),
        children,
        start_line: 0,
    }
}

/// Whether a node of this kind is dropped when it is empty.
pub open spec fn is_structural(kind: NodeType) -> bool {
    kind == NodeType::Part || kind == NodeType::Chapter || kind == NodeType::Section
}

/// Whether pruning keeps the node `c`: it is no part, chapter or section, or
/// it has content other than white space, or it has children.
pub open spec fn keeps(c: NodeView) -> bool {
    !is_structural(c.node_type) || trimmed(c.content).len() > 0 || c.children.len() > 0
}

/// `n` with every empty part, chapter and section below it removed, the
/// deepest first.
pub open spec fn pruned(n: NodeView) -> NodeView
    decreases n, n.children.len() + 1,
{
    NodeView { children: pruned_children(n, n.children.len()), ..n }
}

/// The first `k` children of `n`, each pruned, without those that pruning
/// left empty.
pub open spec fn pruned_children(n: NodeView, k: nat) -> Seq<NodeView>
    decreases n, k,
{
    if k == 0 || k > n.children.len() {
        Seq::empty()
    } else {
        let head = pruned_children(n, (k - 1) as nat);
        let c = pruned(n.children[k - 1]);
        if keeps(c) {
            head.push(c)
        } else {
            head
        }
    }
}

/// The tree of a text.
pub open spec fn parse_spec(text: Seq<char>) -> NodeView {
    let lines = lines_of(text);
    pruned(finish(run(lines, lines.len())))
}

/// Whether no part, chapter or section below `n` is empty.
pub open spec fn no_empty_structure(n: NodeView) -> bool
    decreases n,
{
    forall|i: int|
        0 <= i < n.children.len() ==> keeps(#[trigger] n.children[i]) && no_empty_structure(
            n.children[i],
        )
}

proof fn lemma_pruned_children_clean(n: NodeView, k: nat)
    requires
        k <= n.children.len(),
    ensures
        forall|i: int|
            0 <= i < pruned_children(n, k).len() ==> keeps(#[trigger] pruned_children(n, k)[i])
                && no_empty_structure(pruned_children(n, k)[i]),
    decreases n, k,
{
    if k > 0 {
        lemma_pruned_children_clean(n, (k - 1) as nat);
        lemma_pruned_clean(n.children[k - 1]);
        let head = pruned_children(n, (k - 1) as nat);
        let c = pruned(n.children[k - 1]);
        assert forall|i: int| 0 <= i < pruned_children(n, k).len() implies keeps(
            #[trigger] pruned_children(n, k)[i],
        ) && no_empty_structure(pruned_children(n, k)[i]) by {
            if i < head.len() {
                assert(pruned_children(n, k)[i] == head[i]);
            } else {
                assert(pruned_children(n, k)[i] == c);
            }
        }
    }
}

/// After pruning, no part, chapter or section of the tree is left with
/// neither content nor children.
pub proof fn lemma_pruned_clean(n: NodeView)
    ensures
        no_empty_structure(pruned(n)),
    decreases n, n.children.len() + 1,
{
    lemma_pruned_children_clean(n, n.children.len());
    assert(pruned(n).children == pruned_children(n, n.children.len()));
}

/// The parser: the state between two lines, held as nodes under
/// construction.
pub struct Parser {
    pub root: Vec<ArticleNode>,
    pub part: Option<ArticleNode>,
    pub chapter: Option<ArticleNode>,
    pub section: Option<ArticleNode>,
    pub article: Option<ArticleNode>,
    pub clause: Option<ArticleNode>,
    pub preamble: Vec<Vec<char>>,
    pub started: bool,
    pub in_toc: bool,
    pub seen: Vec<(char, Vec<char>)>,
}

/// The value of an open node, where there is one.
pub open spec fn opt_node_view(o: Option<ArticleNode>) -> Option<NodeView> {
    match o {
        Some(n) => Some(node_view(n)),
        None => None,
    }
}

/// The headings held by a vector of remembered headings.
pub open spec fn seen_view(v: Seq<(char, Vec<char>)>) -> Seq<(char, Seq<char>)> {
    v.map_values(|m: (char, Vec<char>)| (m.0, m.1@))
}

impl View for Parser {
    type V = ParseState;

    open spec fn view(&self) -> ParseState {
        ParseState {
            root: nodes_view(self.root@),
            part: opt_node_view(self.part),
            chapter: opt_node_view(self.chapter),
            section: opt_node_view(self.section),
            article: opt_node_view(self.article),
            clause: opt_node_view(self.clause),
            preamble: lines_view(self.preamble@),
            started: self.started,
            in_toc: self.in_toc,
            seen: seen_view(self.seen@),
        }
    }
}

impl Parser {
    /// The parser before the first line.
    pub fn new() -> (p: Parser)
        ensures
            p@ == initial_state(),
    {
        let p = Parser {
            root: Vec::new(),
            part: None,
            chapter: None,
            section: None,
            article: None,
            clause: None,
            preamble: Vec::new(),
            started: false,
            in_toc: false,
            seen: Vec::new(),
        };
        assert(p@.root =~= Seq::<NodeView>::empty());
        assert(p@.preamble =~= Seq::<Seq<char>>::empty());
        assert(p@.seen =~= Seq::<(char, Seq<char>)>::empty());
        p
    }

    fn push_root(&mut self, node: ArticleNode)
        ensures
            final(self)@ == (ParseState { root: old(self)@.root.push(node_view(node)), ..old(self)@ }),
    {
        self.root.push(node);
        assert(nodes_view(self.root@) =~= nodes_view(old(self).root@).push(node_view(node)));
    }

    fn begin_structure(&mut self)
        ensures
            final(self)@ == begin_structure(old(self)@),
    {
        if !self.started && self.preamble.len() > 0 {
            let node = make_preamble(&self.preamble);
            self.push_root(node);
            self.preamble = Vec::new();
            assert(lines_view(self.preamble@) =~= Seq::<Seq<char>>::empty());
        }
        self.started = true;
        self.in_toc = false;
    }

    fn flush_clause(&mut self)
        ensures
            final(self)@ == flush_clause(old(self)@),
    {
        let clause = self.clause.take();
        match clause {
            Some(c) => {
                let article = self.article.take();
                match article {
                    Some(mut a) => {
                        attach(&mut a, c);
                        self.article = Some(a);
                    },
                    None => {},
                }
            },
            None => {},
        }
    }

    fn flush_article(&mut self)
        ensures
            final(self)@ == flush_article(old(self)@),
    {
        let article = self.article.take();
        match article {
            Some(a) => {
                if self.section.is_some() {
                    let mut s = self.section.take().unwrap();
                    attach(&mut s, a);
                    self.section = Some(s);
                } else if self.chapter.is_some() {
                    let mut c = self.chapter.take().unwrap();
                    attach(&mut c, a);
                    self.chapter = Some(c);
                } else if self.part.is_some() {
                    let mut p = self.part.take().unwrap();
                    attach(&mut p, a);
                    self.part = Some(p);
                } else {
                    self.push_root(a);
                }
            },
            None => {},
        }
    }

    fn flush_section(&mut self)
        ensures
            final(self)@ == flush_section(old(self)@),
    {
        let section = self.section.take();
        match section {
            Some(s) => {
                if self.chapter.is_some() {
                    let mut c = self.chapter.take().unwrap();
                    attach(&mut c, s);
                    self.chapter = Some(c);
                } else if self.part.is_some() {
                    let mut p = self.part.take().unwrap();
                    attach(&mut p, s);
                    self.part = Some(p);
                } else {
                    self.push_root(s);
                }
            },
            None => {},
        }
    }

    fn flush_chapter(&mut self)
        ensures
            final(self)@ == flush_chapter(old(self)@),
    {
        let chapter = self.chapter.take();
        match chapter {
            Some(c) => {
                if self.part.is_some() {
                    let mut p = self.part.take().unwrap();
                    attach(&mut p, c);
                    self.part = Some(p);
                } else {
                    self.push_root(c);
                }
            },
            None => {},
        }
    }

    fn flush_part(&mut self)
        ensures
            final(self)@ == flush_part(old(self)@),
    {
        let part = self.part.take();
        match part {
            Some(p) => {
                self.push_root(p);
            },
            None => {},
        }
    }

    fn close_to(&mut self, kind: NodeType)
        ensures
            final(self)@ == close_to(old(self)@, kind),
    {
        self.flush_clause();
        self.flush_article();
        match kind {
            NodeType::Part => {
                self.flush_section();
                self.flush_chapter();
                self.flush_part();
            },
            NodeType::Chapter => {
                self.flush_section();
                self.flush_chapter();
            },
            NodeType::Section => {
                self.flush_section();
            },
            _ => {},
        }
    }

    fn open_article(&mut self, t: &Vec<char>, k: usize, line_no: usize)
        requires
            1 < k < t@.len(),
        ensures
            final(self)@ == open_article(old(self)@, t@, k as int, line_no as nat),
    {
        self.begin_structure();
        self.close_to(NodeType::Article);
        assert(k < t.len());
        let a = skip_spaces_from(t, k + 1);
        let rest = copy_range(t, a, t.len());
        let content = trim(&rest);
        let node = leaf(
            NodeType::Article,
            string_of_range(t, 1, k),
            None,
            string_of(&content),
            line_no,
        );
        self.article = Some(node);
        self.clause = None;
    }

    fn open_heading(&mut self, kind: NodeType, t: &Vec<char>, k: usize, line_no: usize)
        requires
            1 < k < t@.len(),
            is_structural(kind),
        ensures
            final(self)@ == open_heading(old(self)@, kind, t@, k as int, line_no as nat),
    {
        self.begin_structure();
        self.close_to(kind);
        assert(k < t.len());
        let rest = copy_range(t, k + 1, t.len());
        let title = if kind == NodeType::Chapter && rest.len() > 0 {
            let tt = trim(&rest);
            Some(string_of(&tt))
        } else {
            None
        };
        let node = leaf(kind, string_of_range(t, 1, k), title, String::new(), line_no);
        match kind {
            NodeType::Part => {
                self.part = Some(node);
                self.chapter = None;
                self.section = None;
                self.article = None;
                self.clause = None;
            },
            NodeType::Chapter => {
                self.chapter = Some(node);
                self.section = None;
                self.article = None;
                self.clause = None;
            },
            _ => {
                self.section = Some(node);
                self.article = None;
                self.clause = None;
            },
        }
    }

    fn open_clause(&mut self, t: &Vec<char>, k: usize, line_no: usize)
        requires
            1 < k < t@.len(),
        ensures
            final(self)@ == open_clause(old(self)@, t@, k as int, line_no as nat),
    {
        self.begin_structure();
        self.flush_clause();
        let node = marked_leaf(NodeType::Clause, t, 1, k, line_no);
        self.clause = Some(node);
    }

    fn add_item(&mut self, t: &Vec<char>, k: usize, line_no: usize)
        requires
            0 < k < t@.len(),
        ensures
            final(self)@ == add_item(old(self)@, t@, k as int, line_no as nat),
    {
        let node = marked_leaf(NodeType::Item, t, 0, k, line_no);
        if self.clause.is_some() {
            let mut c = self.clause.take().unwrap();
            attach(&mut c, node);
            self.clause = Some(c);
        } else if self.article.is_some() {
            let mut a = self.article.take().unwrap();
            attach(&mut a, node);
            self.article = Some(a);
        }
    }

    fn continuation(&mut self, t: &Vec<char>)
        ensures
            final(self)@ == continuation(old(self)@, t@),
    {
        if !self.started {
            let line = copy_range(t, 0, t.len());
            assert(line@ =~= t@);
            self.preamble.push(line);
            assert(lines_view(self.preamble@) =~= lines_view(old(self).preamble@).push(t@));
        } else if self.clause.is_some() {
            let mut c = self.clause.take().unwrap();
            add_line(&mut c, t);
            self.clause = Some(c);
        } else if self.article.is_some() {
            let mut a = self.article.take().unwrap();
            add_line(&mut a, t);
            self.article = Some(a);
        } else if self.chapter.is_some() {
            let mut c = self.chapter.take().unwrap();
            add_line(&mut c, t);
            self.chapter = Some(c);
        }
    }

    fn has_seen(&self, unit: char, number: &Vec<char>) -> (r: bool)
        ensures
            r == self@.seen.contains((unit, number@)),
    {
        let mut i: usize = 0;
        while i < self.seen.len()
            invariant
                i <= self.seen@.len(),
                forall|j: int| 0 <= j < i ==> seen_view(self.seen@)[j] != (unit, number@),
            decreases self.seen.len() - i,
        {
            if self.seen[i].0 == unit && same_chars(&self.seen[i].1, number) {
                assert(seen_view(self.seen@)[i as int] == (unit, number@));
                return true;
            }
            i += 1;
        }
        false
    }

    fn toc_check(&mut self, line: &Vec<char>, t: &Vec<char>)
        ensures
            final(self)@ == toc_check(old(self)@, line@, t@),
    {
        if self.in_toc {
            let mark = find_high_mark(t);
            match mark {
                Some((unit, k)) => {
                    let number = copy_range(t, 1, k);
                    let repeat = unit != '节' && self.has_seen(unit, &number);
                    if repeat || !toc_entry(line) {
                        self.in_toc = false;
                    } else {
                        self.seen.push((unit, number));
                        assert(seen_view(self.seen@) =~= seen_view(old(self).seen@).push(
                            (unit, number@),
                        ));
                    }
                },
                None => {},
            }
        }
    }

    fn article_breaks(&self, line: &Vec<char>, t: &Vec<char>) -> (r: Option<usize>)
        ensures
            r is Some == article_breaks(self@, line@, t@),
            r is Some ==> heading_at(t@, '条') == Some(r->0 as int) && 1 < r->0 < t@.len(),
    {
        match heading_mark(t, '条') {
            Some(k) => {
                assert(k < t.len());
                let a = skip_spaces_from(t, k + 1);
                let rest = copy_range(t, a, t.len());
                if !reference(&rest) && (!self.in_toc || !toc_entry(line)) {
                    Some(k)
                } else {
                    None
                }
            },
            None => None,
        }
    }

    fn step_other(&mut self, t: &Vec<char>, line_no: usize)
        ensures
            final(self)@ == step_other(old(self)@, t@, line_no as nat),
    {
        if self.in_toc {
            self.continuation(t);
            return ;
        }
        let part = heading_mark(t, '编');
        if part.is_some() {
            self.open_heading(NodeType::Part, t, part.unwrap(), line_no);
            return ;
        }
        let chapter = heading_mark(t, '章');
        if chapter.is_some() {
            let k = chapter.unwrap();
            assert(k < t.len());
            let rest = copy_range(t, k + 1, t.len());
            if !reference(&rest) {
                self.open_heading(NodeType::Chapter, t, k, line_no);
                return ;
            }
        }
        let section = heading_mark(t, '节');
        if section.is_some() {
            self.open_heading(NodeType::Section, t, section.unwrap(), line_no);
            return ;
        }
        let clause = clause_mark(t);
        if clause.is_some() {
            let k = clause.unwrap();
            assert(k < t.len());
            let rest = copy_range(t, k + 1, t.len());
            if !reference(&rest) {
                self.open_clause(t, k, line_no);
                return ;
            }
        }
        let item = item_mark(t);
        if item.is_some() {
            self.add_item(t, item.unwrap(), line_no);
            return ;
        }
        self.continuation(t);
    }

    /// Reads one line, the `line_no`-th of the text.
    pub fn feed(&mut self, line: &Vec<char>, line_no: usize)
        ensures
            final(self)@ == step(old(self)@, line@, line_no as nat),
    {
        let t = trim(line);
        if t.len() == 0 {
            return ;
        }
        if !self.started && toc_title(&t) {
            self.in_toc = true;
        }
        let breaks = self.article_breaks(line, &t);
        match breaks {
            Some(k) => {
                self.open_article(&t, k, line_no);
            },
            None => {
                self.toc_check(line, &t);
                self.step_other(&t, line_no);
            },
        }
    }

    /// Closes every open node and returns the root, not yet pruned.
    pub fn finish(self) -> (root: ArticleNode)
        ensures
            node_view(root) == finish(self@),
    {
        let mut p = self;
        p.close_to(NodeType::Part);
        let ghost before = p@;
        let Parser { root, preamble, .. } = p;
        let mut children = root;
        if preamble.len() > 0 {
            let node = make_preamble(&preamble);
            children.insert(0, node);
            assert(nodes_view(children@) =~= seq![preamble_node(before.preamble)] + before.root);
        }
        let r = ArticleNode {
            node_type: NodeType::Article,
            number: String::from_str("root"),
            title: Some(String::from_str("Document Root")),
            content: String::new(),
            children,
            start_line: 0,
        };
        proof {
            lemma_node_children(r);
        }
        r
    }
}

/// A clause or an item: the number is `t[from..k]`, the content the mark
/// `t[..=k]` and what follows it, trimmed.
fn marked_leaf(kind: NodeType, t: &Vec<char>, from: usize, k: usize, line_no: usize) -> (r: ArticleNode)
    requires
        from <= k < t@.len(),
    ensures
        node_view(r) == leaf_view(
            kind,
            t@.subrange(from as int, k as int),
            None,
            t@.subrange(0, k + 1) + trimmed(t@.subrange(k + 1, t@.len() as int)),
            line_no as nat,
        ),
{
    assert(k < t.len());
    let mut content = copy_range(t, 0, k + 1);
    let rest = copy_range(t, k + 1, t.len());
    let tail = trim(&rest);
    crate::text::append_chars(&mut content, &tail);
    leaf(kind, string_of_range(t, from, k), None, string_of(&content), line_no)
}

fn find_high_mark(t: &Vec<char>) -> (r: Option<(char, usize)>)
    ensures
        match r {
            Some((unit, k)) => high_mark(t@) == Some((unit, k as int)) && 1 < k < t@.len(),
            None => high_mark(t@) is None,
        },
{
    let chapter = heading_mark(t, '章');
    if chapter.is_some() {
        return Some(('章', chapter.unwrap()));
    }
    let section = heading_mark(t, '节');
    if section.is_some() {
        return Some(('节', section.unwrap()));
    }
    let part = heading_mark(t, '编');
    if part.is_some() {
        return Some(('编', part.unwrap()));
    }
    None
}

/// Removes from the children of `node`, at every depth, the parts, chapters
/// and sections that have neither content nor children.
pub fn prune_empty_nodes(node: &mut ArticleNode)
    ensures
        node_view(*final(node)) == pruned(node_view(*old(node))),
        no_empty_structure(node_view(*final(node))),
    decreases *old(node),
{
    let ghost before = *node;
    let ghost before_view = node_view(*node);
    proof {
        lemma_node_children(before);
    }
    let mut rest: Vec<ArticleNode> = Vec::new();
    core::mem::swap(&mut rest, &mut node.children);
    // `rest` now holds the children; pruned ones are collected from the last
    // to the first and then put back in order.
    let mut kept_rev: Vec<ArticleNode> = Vec::new();
    let ghost all = rest@;
    assert(rest@ =~= all.take(rest@.len() as int));
    assert(nodes_view(kept_rev@).reverse() =~= Seq::<NodeView>::empty());
    while rest.len() > 0
        invariant
            rest@.len() <= all.len(),
            rest@ == all.take(rest@.len() as int),
            all == before.children@,
            before == *old(node),
            before_view == node_view(before),
            nodes_view(all) == before_view.children,
            pruned_children(before_view, all.len()) == pruned_children(
                before_view,
                rest@.len(),
            ) + nodes_view(kept_rev@).reverse(),
        decreases rest@.len(),
    {
        let ghost k = rest@.len();
        let mut child = rest.pop().unwrap();
        assert(child == before.children[k - 1]);
        assert(decreases_to!(before.children => before.children[k - 1]));
        prune_empty_nodes(&mut child);
        let structural = child.node_type == NodeType::Part || child.node_type == NodeType::Chapter
            || child.node_type == NodeType::Section;
        let keep = if structural {
            let content = to_chars(child.content.as_str());
            let body = trim(&content);
            body.len() > 0 || child.children.len() > 0
        } else {
            true
        };
        proof {
            lemma_node_children(child);
            assert(before_view.children[k - 1] == node_view(all[k - 1]));
            assert(keep == keeps(node_view(child)));
            assert(rest@ =~= all.take(k - 1));
        }
        let ghost old_rev = nodes_view(kept_rev@).reverse();
        if keep {
            kept_rev.push(child);
            assert(nodes_view(kept_rev@).reverse() =~= seq![node_view(child)] + old_rev);
            assert(pruned_children(before_view, (k - 1) as nat).push(node_view(child)) + old_rev
                =~= pruned_children(before_view, (k - 1) as nat) + (seq![node_view(child)]
                + old_rev));
        }
    }
    let mut kept: Vec<ArticleNode> = Vec::new();
    let ghost rev = kept_rev@;
    assert(kept_rev@ =~= rev.take(kept_rev@.len() as int));
    assert(nodes_view(kept@) + nodes_view(kept_rev@).reverse() =~= nodes_view(rev).reverse());
    while kept_rev.len() > 0
        invariant
            kept_rev@.len() <= rev.len(),
            kept_rev@ == rev.take(kept_rev@.len() as int),
            nodes_view(rev).reverse() == nodes_view(kept@) + nodes_view(kept_rev@).reverse(),
        decreases kept_rev@.len(),
    {
        let ghost k = kept_rev@.len();
        let child = kept_rev.pop().unwrap();
        kept.push(child);
        assert(kept_rev@ =~= rev.take(k - 1));
        assert(nodes_view(kept@) + nodes_view(kept_rev@).reverse() =~= nodes_view(rev).reverse());
    }
    node.children = kept;
    proof {
        lemma_node_children(*node);
        assert(nodes_view(kept_rev@).reverse() =~= Seq::<NodeView>::empty());
        assert(nodes_view(kept@) =~= pruned_children(before_view, all.len()));
        lemma_pruned_clean(before_view);
    }
}

/// Parses the text of a law into its tree. Every text has a tree: what is no
/// heading becomes content or preamble. In the tree no part, chapter or
/// section is empty, every node below the root lies deeper than its parent,
/// and every article bears the number that its heading shows.
pub fn parse_article(text: &str) -> (root: ArticleNode)
    ensures
        node_view(root) == parse_spec(text@),
        no_empty_structure(node_view(root)),
        crate::tree_laws::all_sound(lines_of(text@), node_view(root).children),
{
    proof {
        crate::tree_laws::lemma_parsed_tree(text@);
    }
    let chars = to_chars(text);
    let lines = split_lines(&chars);
    let mut parser = Parser::new();
    let mut i: usize = 0;
    while i < lines.len()
        invariant
            i <= lines@.len(),
            lines_view(lines@) == lines_of(text@),
            parser@ == run(lines_of(text@), i as nat),
        decreases lines.len() - i,
    {
        parser.feed(&lines[i], i + 1);
        i += 1;
    }
    let mut root = parser.finish();
    prune_empty_nodes(&mut root);
    root
}

} // verus!
