//! Source files in memory, and the syntactic query that finds their log
//! call sites, run by tree-sitter.
use vstd::prelude::*;
use crate::language::{language_of_path, SourceLanguage};
use crate::matcher::LogError;
use crate::source_ref::{matches_view, rows_fit, MatchView, QueryMatch};
use crate::text::same_text;
use tree_sitter::StreamingIterator;

verus! {

#[verifier::external_type_specification]
#[verifier::external_body]
pub struct ExGrammar(tree_sitter::Language);

#[verifier::external_type_specification]
#[verifier::external_body]
pub struct ExTree(tree_sitter::Tree);

#[verifier::external_type_specification]
#[verifier::external_body]
pub struct ExNode<'a>(tree_sitter::Node<'a>);

/// One node of a syntax tree, as plain values.
#[derive(Debug, Clone)]
pub struct SyntaxNode {
    pub kind: String,
    /// The field under which the parent holds this node, if any.
    pub field: Option<String>,
    pub start_byte: usize,
    pub end_byte: usize,
    pub start_row: usize,
    pub start_column: usize,
    pub end_row: usize,
    /// Position of the parent among the tree's nodes.
    pub parent: Option<usize>,
}

pub struct NodeView {
    pub kind: Seq<char>,
    pub field: Option<Seq<char>>,
    pub start_byte: nat,
    pub end_byte: nat,
    pub start_row: nat,
    pub start_column: nat,
    pub end_row: nat,
    pub parent: Option<nat>,
}

impl View for SyntaxNode {
    type V = NodeView;

    open spec fn view(&self) -> NodeView {
        NodeView {
            kind: self.kind@,
            field: match self.field {
                Some(f) => Some(f@),
                None => None,
            },
            start_byte: self.start_byte as nat,
            end_byte: self.end_byte as nat,
            start_row: self.start_row as nat,
            start_column: self.start_column as nat,
            end_row: self.end_row as nat,
            parent: match self.parent {
                Some(p) => Some(p as nat),
                None => None,
            },
        }
    }
}

pub open spec fn nodes_view(v: Seq<SyntaxNode>) -> Seq<NodeView> {
    v.map_values(|n: SyntaxNode| n@)
}

/// The nodes of the syntax tree that tree-sitter builds for `text` in
/// `lang`, in preorder; none where the parser gives no tree.
pub uninterp spec fn tree_of(lang: SourceLanguage, text: Seq<char>) -> Option<Seq<NodeView>>;

/// The captures of `query` over that tree, in source order: the capture's
/// name and the byte range of its node; none where the query does not compile.
pub uninterp spec fn captures_in(lang: SourceLanguage, text: Seq<char>, query: Seq<char>) -> Option<
    Seq<(Seq<char>, nat, nat)>,
>;

/// The part of `text` between two byte offsets, where they fall on
/// character boundaries within it.
pub uninterp spec fn byte_text_of(text: Seq<char>, start: nat, end: nat) -> Option<Seq<char>>;

pub open spec fn spans_view(r: Option<Vec<(String, usize, usize)>>) -> Option<Seq<(Seq<char>, nat, nat)>> {
    match r {
        Some(v) => Some(v@.map_values(|c: (String, usize, usize)| (c.0@, c.1 as nat, c.2 as nat))),
        None => None,
    }
}

/// Relies on the grammar crates' `LANGUAGE` constants: the grammar of `lang`.
#[verifier::external_body]
fn grammar(lang: SourceLanguage) -> tree_sitter::Language {
    match lang {
        SourceLanguage::Rust => tree_sitter_rust_orchard::LANGUAGE.into(),
        SourceLanguage::Java => tree_sitter_java::LANGUAGE.into(),
        SourceLanguage::Cpp => tree_sitter_cpp::LANGUAGE.into(),
    }
}

/// Relies on `tree_sitter::Parser::set_language` and `Parser::parse`: the
/// syntax tree of `text` in `lang`, if the parser produced one.
#[verifier::external_body]
fn parse_tree(lang: SourceLanguage, text: &str) -> Option<tree_sitter::Tree> {
    let mut parser = tree_sitter::Parser::new();
    parser.set_language(&grammar(lang)).ok()?;
    parser.parse(text, None)
}

/// Relies on the accessors of `tree_sitter::Node`: the node as plain values.
#[verifier::external_body]
fn node_record(n: &tree_sitter::Node, field: Option<&str>, parent: Option<usize>) -> SyntaxNode {
    let (s, e) = (n.start_position(), n.end_position());
    SyntaxNode {
        kind: n.kind().to_string(),
        field: field.map(|f| f.to_string()),
        start_byte: n.start_byte(),
        end_byte: n.end_byte(),
        start_row: s.row,
        start_column: s.column,
        end_row: e.row,
        parent,
    }
}

/// Relies on `tree_sitter::TreeCursor`: every node of the tree of `text`, in
/// preorder, with its field name and its parent's position.
#[verifier::external_body]
fn syntax_nodes(lang: SourceLanguage, text: &str) -> (r: Option<Vec<SyntaxNode>>)
    ensures
        r matches Some(v) ==> tree_of(lang, text@) == Some(nodes_view(v@)),
        r is None ==> tree_of(lang, text@) is None,
{
    let tree = parse_tree(lang, text)?;
    let (mut c, mut out, mut up) = (tree.walk(), Vec::new(), Vec::new());
    loop {
        out.push(node_record(&c.node(), c.field_name(), up.last().copied()));
        if c.goto_first_child() {
            up.push(out.len() - 1);
            continue;
        }
        while !c.goto_next_sibling() {
            if !c.goto_parent() {
                return Some(out);
            }
            up.pop();
        }
    }
}

/// Relies on `tree_sitter::Query::new` and `QueryCursor::captures`: each
/// capture of `query` over the tree of `text`, with its name and byte range.
#[verifier::external_body]
fn capture_spans(lang: SourceLanguage, text: &str, query: &str) -> (r: Option<Vec<(String, usize, usize)>>)
    ensures
        spans_view(r) == captures_in(lang, text@, query@),
{
    let tree = parse_tree(lang, text)?;
    let q = tree_sitter::Query::new(&grammar(lang), query).ok()?;
    let mut cursor = tree_sitter::QueryCursor::new();
    let (mut it, mut out) = (cursor.captures(&q, tree.root_node(), text.as_bytes()), Vec::new());
    while let Some((m, i)) = it.next() {
        let c = m.captures()[*i];
        out.push((q.capture_names()[c.index as usize].to_string(), c.node.start_byte(), c.node.end_byte()));
    }
    Some(out)
}

/// Relies on `str::get` with a byte range: that part of `text`, where the
/// range falls on character boundaries within it.
#[verifier::external_body]
fn byte_slice(text: &str, start: usize, end: usize) -> (r: Option<String>)
    ensures
        r matches Some(s) ==> byte_text_of(text@, start as nat, end as nat) == Some(s@),
        r is None ==> byte_text_of(text@, start as nat, end as nat) is None,
{
    text.get(start..end).map(|s| s.to_string())
}

/// `e` reports that the file at `p` has no supported language.
pub open spec fn unsupported(e: LogError, p: Seq<char>) -> bool {
    e matches LogError::UnsupportedFileType { name } && name@ == p
}

/// A source file held in memory.
#[derive(Debug)]
pub struct CodeSource {
    pub path: String,
    pub language: SourceLanguage,
    pub id: u64,
    pub buffer: String,
}

impl CodeSource {
    /// The file at `path`, with id `id`, whose text is `text`; its language
    /// comes from the path's extension.
    pub fn new(path: &str, id: u64, text: &str) -> (r: Result<CodeSource, LogError>)
        ensures
            language_of_path(path@) matches Some(lang) ==> r matches Ok(c) && c.path@ == path@
                && c.language == lang && c.id == id && c.buffer@ == text@,
            language_of_path(path@) is None ==> r is Err && unsupported(r->Err_0, path@),
    {
        match SourceLanguage::from_path(path) {
            Some(language) => Ok(
                CodeSource { path: path.to_owned(), language, id, buffer: text.to_owned() },
            ),
            None => Err(LogError::UnsupportedFileType { name: path.to_owned() }),
        }
    }

    /// The file at `path` whose text is `text`, with id zero.
    pub fn from_string(path: &str, text: &str) -> (r: Result<CodeSource, LogError>)
        ensures
            language_of_path(path@) matches Some(lang) ==> r matches Ok(c) && c.path@ == path@
                && c.language == lang && c.id == 0 && c.buffer@ == text@,
            language_of_path(path@) is None ==> r is Err && unsupported(r->Err_0, path@),
    {
        CodeSource::new(path, 0, text)
    }
}

/// Whether a node of kind `k` is a function of `lang` that can enclose a call site.
pub open spec fn is_function_kind(lang: SourceLanguage, k: Seq<char>) -> bool {
    match lang {
        SourceLanguage::Rust => k == "function_item"@,
        SourceLanguage::Java => k == "method_declaration"@ || k == "constructor_declaration"@,
        SourceLanguage::Cpp => k == "function_definition"@,
    }
}

/// Position of the first string literal at or after `i` with the byte range `sb..eb`.
pub open spec fn literal_from(ns: Seq<NodeView>, sb: nat, eb: nat, i: int) -> Option<int>
    decreases ns.len() - i,
{
    if i < 0 || i >= ns.len() {
        None
    } else if ns[i].start_byte == sb && ns[i].end_byte == eb && ns[i].kind == "string_literal"@ {
        Some(i)
    } else {
        literal_from(ns, sb, eb, i + 1)
    }
}

/// Position of the last node before `j` whose parent is `p`: in preorder,
/// the previous sibling of a node at `j` with parent `p`.
pub open spec fn prev_from(ns: Seq<NodeView>, p: Option<nat>, j: int) -> Option<int>
    decreases j,
{
    if j <= 0 || j > ns.len() {
        None
    } else if ns[j - 1].parent == p {
        Some(j - 1)
    } else {
        prev_from(ns, p, j - 1)
    }
}

/// Position of the first child of node `i`, at or after `j`, held under field `f`.
pub open spec fn field_from(ns: Seq<NodeView>, i: nat, f: Seq<char>, j: int) -> Option<int>
    decreases ns.len() - j,
{
    if j < 0 || j >= ns.len() {
        None
    } else if ns[j].parent == Some(i) && ns[j].field == Some(f) {
        Some(j)
    } else {
        field_from(ns, i, f, j + 1)
    }
}

/// The source text of a node, or empty.
pub open spec fn text_of_node(text: Seq<char>, n: NodeView) -> Seq<char> {
    match byte_text_of(text, n.start_byte, n.end_byte) {
        Some(t) => t,
        None => seq![],
    }
}

/// The innermost node reached from `cur` through `declarator` fields, in at
/// most `fuel` steps.
pub open spec fn decl_end(ns: Seq<NodeView>, cur: int, fuel: nat) -> int
    decreases fuel,
{
    if fuel == 0 {
        cur
    } else {
        match field_from(ns, cur as nat, "declarator"@, 0) {
            Some(d) => decl_end(ns, d, (fuel - 1) as nat),
            None => cur,
        }
    }
}

/// The name that the function node `f` declares: its `name` field, or for
/// C++ the innermost `declarator`.
pub open spec fn function_name(lang: SourceLanguage, ns: Seq<NodeView>, text: Seq<char>, f: int, depth: nat) -> Seq<char> {
    match lang {
        SourceLanguage::Cpp => match field_from(ns, f as nat, "declarator"@, 0) {
            Some(d) => text_of_node(text, ns[decl_end(ns, d, depth)]),
            None => seq![],
        },
        _ => match field_from(ns, f as nat, "name"@, 0) {
            Some(n) => text_of_node(text, ns[n]),
            None => seq![],
        },
    }
}

/// The name of the first function among `cur` and its ancestors, looking at
/// no more than `fuel` of them; empty where there is none.
pub open spec fn enclosing_from(lang: SourceLanguage, ns: Seq<NodeView>, text: Seq<char>, cur: Option<nat>, fuel: nat, depth: nat) -> Seq<char>
    decreases fuel,
{
    if fuel == 0 {
        seq![]
    } else {
        match cur {
            None => seq![],
            Some(i) => if i >= ns.len() {
                seq![]
            } else if is_function_kind(lang, ns[i as int].kind) {
                function_name(lang, ns, text, i as int, depth)
            } else {
                enclosing_from(lang, ns, text, ns[i as int].parent, (fuel - 1) as nat, depth)
            },
        }
    }
}

/// The literal at `k` is the first argument of its call: it follows the
/// opening delimiter directly, or forms a template.
pub open spec fn opens_call(ns: Seq<NodeView>, k: int) -> bool {
    let after_open = match prev_from(ns, ns[k].parent, k) {
        Some(j) => ns[j].kind == "("@ || ns[j].kind == "["@ || ns[j].kind == "{"@,
        None => false,
    };
    let in_template = match ns[k].parent {
        Some(p) => p < ns.len() && ns[p as int].kind == "template_expression"@,
        None => false,
    };
    after_open || in_template
}

/// The argument match that follows the literal at `k`: the text from the
/// literal's end to its call's closing delimiter.
pub open spec fn args_record(ns: Seq<NodeView>, text: Seq<char>, k: int) -> Option<MatchView> {
    let n = ns[k];
    match n.parent {
        Some(p) => if p < ns.len() && n.end_byte < ns[p as int].end_byte && ns[p as int].end_row
            < usize::MAX {
            match byte_text_of(text, n.end_byte, (ns[p as int].end_byte - 1) as nat) {
                Some(rest) => Some(
                    MatchView {
                        kind: "args"@,
                        text: rest,
                        start_row: n.start_row,
                        start_column: n.start_column,
                        end_row: ns[p as int].end_row,
                        context: seq![],
                    },
                ),
                None => None,
            }
        } else {
            None
        },
        None => None,
    }
}

/// The matches that one capture yields: for a literal that opens a log
/// call, the literal and then its arguments.
pub open spec fn capture_records(lang: SourceLanguage, ns: Seq<NodeView>, text: Seq<char>, c: (Seq<char>, nat, nat), depth: nat) -> Seq<MatchView> {
    if c.0 == "log"@ || c.0 == "arguments"@ {
        match literal_from(ns, c.1, c.2, 0) {
            Some(k) => {
                let n = ns[k];
                if opens_call(ns, k) && n.start_row < usize::MAX && n.end_row < usize::MAX {
                    let lit = MatchView {
                        kind: "string_literal"@,
                        text: text_of_node(text, n),
                        start_row: n.start_row,
                        start_column: n.start_column,
                        end_row: n.end_row,
                        context: enclosing_from(lang, ns, text, n.parent, depth, depth),
                    };
                    match args_record(ns, text, k) {
                        Some(a) => seq![lit, a],
                        None => seq![lit],
                    }
                } else {
                    seq![]
                }
            },
            None => seq![],
        }
    } else {
        seq![]
    }
}

/// The matches that a run of captures yields, in order.
pub open spec fn records_of(lang: SourceLanguage, ns: Seq<NodeView>, text: Seq<char>, cs: Seq<(Seq<char>, nat, nat)>, depth: nat) -> Seq<MatchView>
    decreases cs.len(),
{
    if cs.len() == 0 {
        seq![]
    } else {
        records_of(lang, ns, text, cs.drop_last(), depth) + capture_records(lang, ns, text, cs.last(), depth)
    }
}

/// The query matches of a source text in `lang`, in source order.
pub open spec fn matches_of(lang: SourceLanguage, text: Seq<char>) -> Seq<MatchView> {
    match (tree_of(lang, text), captures_in(lang, text, lang.query_text())) {
        (Some(ns), Some(cs)) => records_of(lang, ns, text, cs, ns.len()),
        _ => seq![],
    }
}

fn is_function_kind_exec(lang: SourceLanguage, k: &str) -> (r: bool)
    ensures
        r == is_function_kind(lang, k@),
{
    match lang {
        SourceLanguage::Rust => same_text(k, "function_item"),
        SourceLanguage::Java => same_text(k, "method_declaration") || same_text(
            k,
            "constructor_declaration",
        ),
        SourceLanguage::Cpp => same_text(k, "function_definition"),
    }
}

pub open spec fn opt_view(o: Option<usize>) -> Option<nat> {
    match o {
        Some(p) => Some(p as nat),
        None => None,
    }
}

fn same_parent(a: Option<usize>, b: Option<usize>) -> (r: bool)
    ensures
        r == (opt_view(a) == opt_view(b)),
{
    match (a, b) {
        (Some(x), Some(y)) => x == y,
        (None, None) => true,
        _ => false,
    }
}

fn find_literal(ns: &Vec<SyntaxNode>, sb: usize, eb: usize) -> (r: Option<usize>)
    ensures
        r matches Some(k) ==> literal_from(nodes_view(ns@), sb as nat, eb as nat, 0) == Some(k as int) && k < ns@.len(),
        r is None ==> literal_from(nodes_view(ns@), sb as nat, eb as nat, 0) is None,
{
    let ghost v = nodes_view(ns@);
    let mut k: usize = 0;
    while k < ns.len()
        invariant
            v == nodes_view(ns@),
            literal_from(v, sb as nat, eb as nat, 0) == literal_from(v, sb as nat, eb as nat, k as int),
        decreases ns@.len() - k,
    {
        let n = &ns[k];
        assert(v[k as int] == n@);
        if n.start_byte == sb && n.end_byte == eb && same_text(n.kind.as_str(), "string_literal") {
            return Some(k);
        }
        k = k + 1;
    }
    None
}

fn prev_sibling(ns: &Vec<SyntaxNode>, k: usize) -> (r: Option<usize>)
    requires
        k < ns@.len(),
    ensures
        r matches Some(j) ==> prev_from(nodes_view(ns@), nodes_view(ns@)[k as int].parent, k as int) == Some(j as int) && j < ns@.len(),
        r is None ==> prev_from(nodes_view(ns@), nodes_view(ns@)[k as int].parent, k as int) is None,
{
    let ghost v = nodes_view(ns@);
    let p = ns[k].parent;
    assert(opt_view(p) == v[k as int].parent);
    let mut j: usize = k;
    while j > 0
        invariant
            v == nodes_view(ns@),
            j <= k < ns@.len(),
            opt_view(p) == v[k as int].parent,
            prev_from(v, v[k as int].parent, k as int) == prev_from(v, v[k as int].parent, j as int),
        decreases j,
    {
        assert(v[j - 1] == ns@[j - 1]@);
        if same_parent(ns[j - 1].parent, p) {
            return Some(j - 1);
        }
        j = j - 1;
    }
    None
}

fn field_child(ns: &Vec<SyntaxNode>, i: usize, f: &str) -> (r: Option<usize>)
    ensures
        r matches Some(j) ==> field_from(nodes_view(ns@), i as nat, f@, 0) == Some(j as int) && j < ns@.len(),
        r is None ==> field_from(nodes_view(ns@), i as nat, f@, 0) is None,
{
    let ghost v = nodes_view(ns@);
    let mut j: usize = 0;
    while j < ns.len()
        invariant
            v == nodes_view(ns@),
            field_from(v, i as nat, f@, 0) == field_from(v, i as nat, f@, j as int),
        decreases ns@.len() - j,
    {
        let n = &ns[j];
        assert(v[j as int] == n@);
        let hit = match n.parent {
            Some(q) => q == i && match &n.field {
                Some(g) => same_text(g.as_str(), f),
                None => false,
            },
            None => false,
        };
        if hit {
            return Some(j);
        }
        j = j + 1;
    }
    None
}

fn node_text(text: &str, n: &SyntaxNode) -> (r: String)
    ensures
        r@ == text_of_node(text@, n@),
{
    match byte_slice(text, n.start_byte, n.end_byte) {
        Some(s) => s,
        None => String::new(),
    }
}

fn function_name_exec(lang: SourceLanguage, ns: &Vec<SyntaxNode>, text: &str, f: usize, depth: usize) -> (r: String)
    ensures
        r@ == function_name(lang, nodes_view(ns@), text@, f as int, depth as nat),
{
    let ghost v = nodes_view(ns@);
    match lang {
        SourceLanguage::Cpp => {
            let d = match field_child(ns, f, "declarator") {
                Some(d) => d,
                None => return String::new(),
            };
            let mut cur = d;
            let mut steps: usize = 0;
            while steps < depth
                invariant
                    v == nodes_view(ns@),
                    lang == SourceLanguage::Cpp,
                    field_from(v, f as nat, "declarator"@, 0) == Some(d as int),
                    cur < ns@.len(),
                    steps <= depth,
                    decl_end(v, d as int, depth as nat) == decl_end(v, cur as int, (depth - steps) as nat),
                decreases depth - steps,
            {
                match field_child(ns, cur, "declarator") {
                    Some(e) => cur = e,
                    None => {
                        assert(v[cur as int] == ns@[cur as int]@);
                        assert(field_from(v, cur as nat, "declarator"@, 0) is None);
                        assert(decl_end(v, cur as int, (depth - steps) as nat) == cur as int);
                        assert(function_name(lang, v, text@, f as int, depth as nat) == text_of_node(text@, v[cur as int]));
                        return node_text(text, &ns[cur]);
                    },
                }
                steps = steps + 1;
            }
            assert(v[cur as int] == ns@[cur as int]@);
            node_text(text, &ns[cur])
        },
        _ => match field_child(ns, f, "name") {
            Some(n) => {
                assert(v[n as int] == ns@[n as int]@);
                node_text(text, &ns[n])
            },
            None => String::new(),
        },
    }
}

fn enclosing_function(lang: SourceLanguage, ns: &Vec<SyntaxNode>, text: &str, start: Option<usize>, depth: usize) -> (r: String)
    ensures
        r@ == enclosing_from(lang, nodes_view(ns@), text@, opt_view(start), depth as nat, depth as nat),
{
    let ghost v = nodes_view(ns@);
    let mut cur = start;
    let mut steps: usize = 0;
    while steps < depth
        invariant
            v == nodes_view(ns@),
            steps <= depth,
            enclosing_from(lang, v, text@, opt_view(start), depth as nat, depth as nat)
                == enclosing_from(lang, v, text@, opt_view(cur), (depth - steps) as nat, depth as nat),
        decreases depth - steps,
    {
        let i = match cur {
            Some(i) => i,
            None => return String::new(),
        };
        if i >= ns.len() {
            return String::new();
        }
        assert(v[i as int] == ns@[i as int]@);
        if is_function_kind_exec(lang, ns[i].kind.as_str()) {
            return function_name_exec(lang, ns, text, i, depth);
        }
        cur = ns[i].parent;
        steps = steps + 1;
    }
    String::new()
}

fn opens_call_exec(ns: &Vec<SyntaxNode>, k: usize) -> (r: bool)
    requires
        k < ns@.len(),
    ensures
        r == opens_call(nodes_view(ns@), k as int),
{
    let ghost v = nodes_view(ns@);
    assert(v[k as int] == ns@[k as int]@);
    let after_open = match prev_sibling(ns, k) {
        Some(j) => {
            assert(v[j as int] == ns@[j as int]@);
            let kind = ns[j].kind.as_str();
            same_text(kind, "(") || same_text(kind, "[") || same_text(kind, "{")
        },
        None => false,
    };
    let in_template = match ns[k].parent {
        Some(p) => p < ns.len() && {
            assert(v[p as int] == ns@[p as int]@);
            same_text(ns[p].kind.as_str(), "template_expression")
        },
        None => false,
    };
    after_open || in_template
}

fn args_exec(ns: &Vec<SyntaxNode>, text: &str, k: usize) -> (r: Option<QueryMatch>)
    requires
        k < ns@.len(),
    ensures
        r matches Some(a) ==> args_record(nodes_view(ns@), text@, k as int) == Some(a@),
        r is None ==> args_record(nodes_view(ns@), text@, k as int) is None,
{
    let ghost v = nodes_view(ns@);
    let n = &ns[k];
    assert(v[k as int] == n@);
    let p = match n.parent {
        Some(p) => p,
        None => return None,
    };
    if p >= ns.len() {
        return None;
    }
    let call = &ns[p];
    assert(v[p as int] == call@);
    if !(n.end_byte < call.end_byte && call.end_row < usize::MAX) {
        return None;
    }
    match byte_slice(text, n.end_byte, call.end_byte - 1) {
        Some(rest) => Some(
            QueryMatch {
                kind: String::from_str("args"),
                text: rest,
                start_row: n.start_row,
                start_column: n.start_column,
                end_row: call.end_row,
                context: String::new(),
            },
        ),
        None => None,
    }
}

/// Appends the matches that capture `c` yields.
fn push_capture(lang: SourceLanguage, ns: &Vec<SyntaxNode>, text: &str, c: &(String, usize, usize), depth: usize, out: &mut Vec<QueryMatch>)
    requires
        rows_fit(matches_view(old(out)@)),
    ensures
        rows_fit(matches_view(final(out)@)),
        matches_view(final(out)@) == matches_view(old(out)@) + capture_records(
            lang,
            nodes_view(ns@),
            text@,
            (c.0@, c.1 as nat, c.2 as nat),
            depth as nat,
        ),
{
    let ghost v = nodes_view(ns@);
    let ghost before = matches_view(out@);
    let ghost cr = capture_records(lang, v, text@, (c.0@, c.1 as nat, c.2 as nat), depth as nat);
    if !(same_text(c.0.as_str(), "log") || same_text(c.0.as_str(), "arguments")) {
        assert(before + cr =~= before);
        return;
    }
    let k = match find_literal(ns, c.1, c.2) {
        Some(k) => k,
        None => {
            assert(before + cr =~= before);
            return;
        },
    };
    let n = &ns[k];
    assert(v[k as int] == n@);
    if !(opens_call_exec(ns, k) && n.start_row < usize::MAX && n.end_row < usize::MAX) {
        assert(before + cr =~= before);
        return;
    }
    let lit = QueryMatch {
        kind: String::from_str("string_literal"),
        text: node_text(text, n),
        start_row: n.start_row,
        start_column: n.start_column,
        end_row: n.end_row,
        context: enclosing_function(lang, ns, text, n.parent, depth),
    };
    assert(opt_view(n.parent) == v[k as int].parent);
    out.push(lit);
    assert(matches_view(out@) =~= before.push(lit@));
    match args_exec(ns, text, k) {
        Some(a) => {
            out.push(a);
            assert(matches_view(out@) =~= before.push(lit@).push(a@));
            assert(cr =~= seq![lit@, a@]);
            assert(matches_view(out@) =~= before + cr);
        },
        None => {
            assert(cr =~= seq![lit@]);
            assert(matches_view(out@) =~= before + cr);
        },
    }
}

/// The matches of the language's log query over a code source, in source
/// order: for each call site, its literal (kind `string_literal`), then the
/// text of the arguments that follow it (kind `args`).
fn query_matches(code: &CodeSource) -> (r: Vec<QueryMatch>)
    ensures
        matches_view(r@) == matches_of(code.language, code.buffer@),
        rows_fit(matches_view(r@)),
{
    let mut out: Vec<QueryMatch> = Vec::new();
    assert(matches_view(out@) =~= Seq::<MatchView>::empty());
    let text = code.buffer.as_str();
    let lang = code.language;
    let ns = match syntax_nodes(lang, text) {
        Some(ns) => ns,
        None => return out,
    };
    let caps = match capture_spans(lang, text, lang.get_query()) {
        Some(c) => c,
        None => return out,
    };
    let ghost v = nodes_view(ns@);
    let ghost cs = spans_view(Some(caps))->Some_0;
    let depth = ns.len();
    let mut i: usize = 0;
    while i < caps.len()
        invariant
            v == nodes_view(ns@),
            cs == spans_view(Some(caps))->Some_0,
            depth == ns@.len(),
            i <= caps@.len(),
            matches_view(out@) == records_of(lang, v, text@, cs.subrange(0, i as int), depth as nat),
            rows_fit(matches_view(out@)),
        decreases caps@.len() - i,
    {
        let c = &caps[i];
        assert(cs[i as int] == (c.0@, c.1 as nat, c.2 as nat));
        push_capture(lang, &ns, text, c, depth, &mut out);
        assert(cs.subrange(0, i + 1).drop_last() =~= cs.subrange(0, i as int));
        i = i + 1;
    }
    assert(cs.subrange(0, i as int) =~= cs);
    out
}

/// The log query of a code source's language, run over that source.
pub struct SourceQuery<'a> {
    pub code: &'a CodeSource,
}

impl<'a> SourceQuery<'a> {
    pub fn new(code: &'a CodeSource) -> (r: SourceQuery<'a>)
        ensures
            r.code == code,
    {
        SourceQuery { code }
    }

    /// The matches of the query, in source order: for each call site, its
    /// literal (kind `string_literal`), then the text of the arguments that
    /// follow it (kind `args`).
    pub fn query(&self) -> (r: Vec<QueryMatch>)
        ensures
            matches_view(r@) == matches_of(self.code.language, self.code.buffer@),
            rows_fit(matches_view(r@)),
    {
        query_matches(self.code)
    }
}

} // verus!
