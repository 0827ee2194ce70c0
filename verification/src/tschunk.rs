//! Boundary-aware chunking: one chunk per top-level named construct, found
//! with a tree-sitter grammar.

use vstd::prelude::*;
use crate::chunk::{Chunk, ChunkView, chunks_view, hashes_well_formed, labelled, lemma_make_chunk_labelled, make_chunk};
use crate::digest::{hash_prefix_hex, hex_lower, sha256_of};
use crate::text::{is_blank, str_eq, str_is_blank};
use vstd::utf8::{decode_utf8, encode_utf8, valid_utf8};

verus! {

broadcast use vstd::string::group_string_axioms;

/// `tree_sitter::Language`, a loaded grammar, carried through opaquely.
#[verifier::external_type_specification]
#[verifier::external_body]
pub struct ExLanguage(tree_sitter::Language);

/// The languages that have a grammar wired in.
pub enum Grammar {
    Rust,
    Go,
    Python,
    JavaScript,
    TypeScript,
    Php,
    Java,
    C,
    Cpp,
    Ruby,
    Css,
    Html,
    Elixir,
    Erlang,
}

/// The grammar for a language tag, if one is wired in.
pub open spec fn grammar_of(language: Seq<char>) -> Option<Grammar> {
    if language == "rust"@ {
        Some(Grammar::Rust)
    } else if language == "go"@ {
        Some(Grammar::Go)
    } else if language == "python"@ {
        Some(Grammar::Python)
    } else if language == "javascript"@ {
        Some(Grammar::JavaScript)
    } else if language == "typescript"@ {
        Some(Grammar::TypeScript)
    } else if language == "php"@ {
        Some(Grammar::Php)
    } else if language == "java"@ {
        Some(Grammar::Java)
    } else if language == "c"@ {
        Some(Grammar::C)
    } else if language == "cpp"@ {
        Some(Grammar::Cpp)
    } else if language == "ruby"@ {
        Some(Grammar::Ruby)
    } else if language == "css"@ {
        Some(Grammar::Css)
    } else if language == "html"@ {
        Some(Grammar::Html)
    } else if language == "elixir"@ {
        Some(Grammar::Elixir)
    } else if language == "erlang"@ {
        Some(Grammar::Erlang)
    } else {
        None
    }
}

/// The grammar for a language tag, or `None` to fall back to line chunks.
pub fn grammar_for(language: &str) -> (r: Option<Grammar>)
    ensures
        r == grammar_of(language@),
{
    if str_eq(language, "rust") {
        Some(Grammar::Rust)
    } else if str_eq(language, "go") {
        Some(Grammar::Go)
    } else if str_eq(language, "python") {
        Some(Grammar::Python)
    } else if str_eq(language, "javascript") {
        Some(Grammar::JavaScript)
    } else if str_eq(language, "typescript") {
        Some(Grammar::TypeScript)
    } else if str_eq(language, "php") {
        Some(Grammar::Php)
    } else if str_eq(language, "java") {
        Some(Grammar::Java)
    } else if str_eq(language, "c") {
        Some(Grammar::C)
    } else if str_eq(language, "cpp") {
        Some(Grammar::Cpp)
    } else if str_eq(language, "ruby") {
        Some(Grammar::Ruby)
    } else if str_eq(language, "css") {
        Some(Grammar::Css)
    } else if str_eq(language, "html") {
        Some(Grammar::Html)
    } else if str_eq(language, "elixir") {
        Some(Grammar::Elixir)
    } else if str_eq(language, "erlang") {
        Some(Grammar::Erlang)
    } else {
        None
    }
}

// Each of the following turns a grammar crate's `LanguageFn` constant into a
// `tree_sitter::Language` through tree-sitter's `From` impl; nothing is
// claimed of the result.

/// `tree_sitter_rust::LANGUAGE` as a `tree_sitter::Language`.
#[verifier::external_body]
fn rust_language() -> tree_sitter::Language {
    tree_sitter_rust::LANGUAGE.into()
}

/// `tree_sitter_go::LANGUAGE` as a `tree_sitter::Language`.
#[verifier::external_body]
fn go_language() -> tree_sitter::Language {
    tree_sitter_go::LANGUAGE.into()
}

/// `tree_sitter_python::LANGUAGE` as a `tree_sitter::Language`.
#[verifier::external_body]
fn python_language() -> tree_sitter::Language {
    tree_sitter_python::LANGUAGE.into()
}

/// `tree_sitter_javascript::LANGUAGE` as a `tree_sitter::Language`.
#[verifier::external_body]
fn javascript_language() -> tree_sitter::Language {
    tree_sitter_javascript::LANGUAGE.into()
}

/// `tree_sitter_typescript::LANGUAGE_TYPESCRIPT` as a `tree_sitter::Language`.
#[verifier::external_body]
fn typescript_language() -> tree_sitter::Language {
    tree_sitter_typescript::LANGUAGE_TYPESCRIPT.into()
}

/// `tree_sitter_php::LANGUAGE_PHP` as a `tree_sitter::Language`.
#[verifier::external_body]
fn php_language() -> tree_sitter::Language {
    tree_sitter_php::LANGUAGE_PHP.into()
}

/// `tree_sitter_java::LANGUAGE` as a `tree_sitter::Language`.
#[verifier::external_body]
fn java_language() -> tree_sitter::Language {
    tree_sitter_java::LANGUAGE.into()
}

/// `tree_sitter_c::LANGUAGE` as a `tree_sitter::Language`.
#[verifier::external_body]
fn c_language() -> tree_sitter::Language {
    tree_sitter_c::LANGUAGE.into()
}

/// `tree_sitter_cpp::LANGUAGE` as a `tree_sitter::Language`.
#[verifier::external_body]
fn cpp_language() -> tree_sitter::Language {
    tree_sitter_cpp::LANGUAGE.into()
}

/// `tree_sitter_ruby::LANGUAGE` as a `tree_sitter::Language`.
#[verifier::external_body]
fn ruby_language() -> tree_sitter::Language {
    tree_sitter_ruby::LANGUAGE.into()
}

/// `tree_sitter_css::LANGUAGE` as a `tree_sitter::Language`.
#[verifier::external_body]
fn css_language() -> tree_sitter::Language {
    tree_sitter_css::LANGUAGE.into()
}

/// `tree_sitter_html::LANGUAGE` as a `tree_sitter::Language`.
#[verifier::external_body]
fn html_language() -> tree_sitter::Language {
    tree_sitter_html::LANGUAGE.into()
}

/// `tree_sitter_elixir::LANGUAGE` as a `tree_sitter::Language`.
#[verifier::external_body]
fn elixir_language() -> tree_sitter::Language {
    tree_sitter_elixir::LANGUAGE.into()
}

/// `tree_sitter_erlang::LANGUAGE` as a `tree_sitter::Language`.
#[verifier::external_body]
fn erlang_language() -> tree_sitter::Language {
    tree_sitter_erlang::LANGUAGE.into()
}

/// A loaded grammar together with the language tag it was loaded for.
/// Only `load_grammar` builds one, so `language` is always the grammar
/// that `grammar` names.
pub struct GrammarHandle {
    grammar: Grammar,
    language: tree_sitter::Language,
}

impl View for GrammarHandle {
    type V = Grammar;

    closed spec fn view(&self) -> Grammar {
        self.grammar
    }
}

/// Loads the tree-sitter grammar of `grammar`.
pub fn load_grammar(grammar: Grammar) -> (r: GrammarHandle)
    ensures
        r@ == grammar,
{
    let language = match grammar {
        Grammar::Rust => rust_language(),
        Grammar::Go => go_language(),
        Grammar::Python => python_language(),
        Grammar::JavaScript => javascript_language(),
        Grammar::TypeScript => typescript_language(),
        Grammar::Php => php_language(),
        Grammar::Java => java_language(),
        Grammar::C => c_language(),
        Grammar::Cpp => cpp_language(),
        Grammar::Ruby => ruby_language(),
        Grammar::Css => css_language(),
        Grammar::Html => html_language(),
        Grammar::Elixir => elixir_language(),
        Grammar::Erlang => erlang_language(),
    };
    GrammarHandle { grammar, language }
}

/// A child of a syntax tree's root: whether it is named, its byte range
/// in the source, and the rows (counted from 0) where it starts and ends.
pub struct TopNode {
    pub named: bool,
    pub start_byte: usize,
    pub end_byte: usize,
    pub start_row: usize,
    pub end_row: usize,
}

/// The children of the root of the syntax tree that tree-sitter builds for
/// `content` with `grammar`, in order; `None` when tree-sitter does not
/// parse with that grammar.
pub uninterp spec fn parsed_top_level(grammar: Grammar, content: Seq<char>) -> Option<Seq<TopNode>>;

/// Parses `content` and lists the root's children.
///
/// Calls `tree_sitter::Parser::set_language` and `Parser::parse` (on a new
/// parser, with no old tree), then walks `Node::children` of the root node,
/// reading `is_named`, `start_byte`, `end_byte` and the rows of
/// `start_position` and `end_position`. The contract says only that the
/// outcome is fixed by the grammar and the text; nothing is claimed of the
/// nodes' ranges, which the caller checks.
#[verifier::external_body]
fn parse_top_level(grammar: &GrammarHandle, content: &str) -> (r: Option<Vec<TopNode>>)
    ensures
        r.is_some() == parsed_top_level(grammar@, content@).is_some(),
        r.is_some() ==> r.unwrap()@ == parsed_top_level(grammar@, content@).unwrap(),
{
    let mut parser = tree_sitter::Parser::new();
    parser.set_language(&grammar.language).ok()?;
    let tree = parser.parse(content, None)?;
    let root = tree.root_node();
    let mut cursor = root.walk();
    let mut nodes = Vec::new();
    for n in root.children(&mut cursor) {
        let (start_row, end_row) = (n.start_position().row, n.end_position().row);
        nodes.push(TopNode { named: n.is_named(), start_byte: n.start_byte(), end_byte: n.end_byte(), start_row, end_row });
    }
    Some(nodes)
}

/// Decodes UTF-8 bytes.
///
/// Calls `std::str::from_utf8`, which returns the bytes as a string slice
/// exactly when they are valid UTF-8.
#[verifier::external_body]
fn str_from_utf8(bytes: &[u8]) -> (r: Option<&str>)
    ensures
        r.is_some() == valid_utf8(bytes@),
        r.is_some() ==> encode_utf8(r.unwrap()@) == bytes@,
{
    std::str::from_utf8(bytes).ok()
}

/// A node lies inside the source's `len` bytes, starts no later than it
/// ends, and its rows leave room for 1-based `u32` line numbers.
pub open spec fn node_fits(node: TopNode, len: int) -> bool {
    &&& node.start_byte <= node.end_byte <= len
    &&& node.start_row <= node.end_row < u32::MAX
}

/// Node `a` ends before node `b` starts, in bytes and in rows.
pub open spec fn in_order(a: TopNode, b: TopNode) -> bool {
    a.end_byte <= b.start_byte && a.end_row <= b.start_row
}

/// Every node fits in the source, and the nodes follow one another without
/// overlapping, as the children of a syntax tree's root do.
pub open spec fn nodes_fit(nodes: Seq<TopNode>, len: int) -> bool {
    &&& forall|i: int| 0 <= i < nodes.len() ==> node_fits(#[trigger] nodes[i], len)
    &&& forall|i: int| 0 <= i < nodes.len() - 1 ==> #[trigger] in_order(nodes[i], nodes[i + 1])
}

/// The text of a node: its bytes decoded, or nothing if they are not valid
/// UTF-8.
pub open spec fn node_body(bytes: Seq<u8>, node: TopNode) -> Seq<char> {
    let b = bytes.subrange(node.start_byte as int, node.end_byte as int);
    if valid_utf8(b) {
        decode_utf8(b)
    } else {
        seq![]
    }
}

/// Whether a node becomes a chunk: it is named and its text is not blank.
pub open spec fn node_kept(bytes: Seq<u8>, node: TopNode) -> bool {
    node.named && !is_blank(node_body(bytes, node))
}

/// The chunk of a node; its lines count from 1.
pub open spec fn node_chunk(relative: Seq<char>, language: Seq<char>, bytes: Seq<u8>, node: TopNode) -> ChunkView {
    make_chunk(
        relative,
        language,
        (node.start_row + 1) as u32,
        (node.end_row + 1) as u32,
        node_body(bytes, node),
    )
}

/// The chunks of the nodes that are kept, in order.
pub open spec fn node_chunks(
    relative: Seq<char>,
    language: Seq<char>,
    bytes: Seq<u8>,
    nodes: Seq<TopNode>,
) -> Seq<ChunkView>
    decreases nodes.len(),
{
    if nodes.len() == 0 {
        seq![]
    } else {
        let rest = node_chunks(relative, language, bytes, nodes.drop_last());
        if node_kept(bytes, nodes.last()) {
            rest.push(node_chunk(relative, language, bytes, nodes.last()))
        } else {
            rest
        }
    }
}

/// One chunk per named top-level node whose text is not blank.
pub fn chunks_from_nodes(relative: &str, language: &str, content: &str, nodes: &Vec<TopNode>) -> (r: Vec<Chunk>)
    requires
        nodes_fit(nodes@, encode_utf8(content@).len() as int),
    ensures
        chunks_view(r@) == node_chunks(relative@, language@, encode_utf8(content@), nodes@),
        hashes_well_formed(r@),
{
    let bytes = content.as_bytes();
    let mut chunks: Vec<Chunk> = Vec::new();
    let mut i: usize = 0;
    while i < nodes.len()
        invariant
            i <= nodes.len(),
            bytes@ == encode_utf8(content@),
            nodes_fit(nodes@, bytes@.len() as int),
            chunks_view(chunks@) == node_chunks(relative@, language@, bytes@, nodes@.take(i as int)),
            hashes_well_formed(chunks@),
        decreases nodes.len() - i,
    {
        let node = &nodes[i];
        assert(nodes@.take(i + 1).drop_last() =~= nodes@.take(i as int));
        if node.named {
            let body_bytes = vstd::slice::slice_subrange(bytes, node.start_byte, node.end_byte);
            let body = match str_from_utf8(body_bytes) {
                Some(s) => s,
                None => "",
            };
            proof {
                reveal_strlit("");
                broadcast use vstd::utf8::encode_utf8_decode_utf8;
                if valid_utf8(body_bytes@) {
                    assert(body@ == decode_utf8(encode_utf8(body@)));
                }
                assert(body_bytes@ =~= bytes@.subrange(node.start_byte as int, node.end_byte as int));
                assert(body@ == node_body(bytes@, *node));
            }
            if !str_is_blank(body) {
                let mut text = String::new();
                text.append("// ");
                text.append(relative);
                text.append(" (");
                text.append(language);
                text.append(")\n");
                text.append(body);
                let hash = hash_prefix_hex(text.as_str().as_bytes(), 8);
                let chunk = Chunk {
                    relative: relative.to_string(),
                    language: language.to_string(),
                    line_start: (node.start_row as u32) + 1,
                    line_end: (node.end_row as u32) + 1,
                    text,
                    hash,
                };
                chunks.push(chunk);
            }
        }
        assert(chunks_view(chunks@) =~= node_chunks(relative@, language@, bytes@, nodes@.take(i + 1)));
        i = i + 1;
    }
    assert(nodes@.take(nodes.len() as int) =~= nodes@);
    chunks
}

proof fn lemma_node_chunks_labelled_rec(relative: Seq<char>, language: Seq<char>, bytes: Seq<u8>, nodes: Seq<TopNode>)
    ensures
        forall|k: int|
            0 <= k < node_chunks(relative, language, bytes, nodes).len() ==> labelled(
                #[trigger] node_chunks(relative, language, bytes, nodes)[k],
                relative,
                language,
            ),
    decreases nodes.len(),
{
    if nodes.len() > 0 {
        lemma_node_chunks_labelled_rec(relative, language, bytes, nodes.drop_last());
        let n = nodes.last();
        lemma_make_chunk_labelled(relative, language, (n.start_row + 1) as u32, (n.end_row + 1) as u32, node_body(bytes, n));
        let rest = node_chunks(relative, language, bytes, nodes.drop_last());
        let all = node_chunks(relative, language, bytes, nodes);
        assert forall|k: int| 0 <= k < all.len() implies labelled(#[trigger] all[k], relative, language) by {
            if k < rest.len() {
                assert(all[k] == rest[k]);
            }
        }
    }
}

/// Each grammar-based chunk is labelled with the file's path and language.
pub proof fn lemma_node_chunks_labelled(relative: Seq<char>, language: Seq<char>, content: Seq<char>)
    ensures
        grammar_chunks(relative, language, content) matches Some(cs) ==> forall|k: int|
            0 <= k < cs.len() ==> labelled(#[trigger] cs[k], relative, language),
{
    if let Some(g) = grammar_of(language) {
        if let Some(nodes) = parsed_top_level(g, content) {
            lemma_node_chunks_labelled_rec(relative, language, encode_utf8(content), nodes);
        }
    }
}

/// Whether every node fits in `len` bytes and the nodes are in order.
fn check_nodes_fit(nodes: &Vec<TopNode>, len: usize) -> (r: bool)
    ensures
        r == nodes_fit(nodes@, len as int),
{
    let limit = u32::MAX as usize;
    let mut i: usize = 0;
    while i < nodes.len()
        invariant
            i <= nodes.len(),
            limit == u32::MAX,
            nodes_fit(nodes@.take(i as int), len as int),
        decreases nodes.len() - i,
    {
        let n = &nodes[i];
        assert(nodes@[i as int] == *n);
        if !(n.start_byte <= n.end_byte && n.end_byte <= len && n.start_row <= n.end_row && n.end_row < limit) {
            assert(!node_fits(nodes@[i as int], len as int));
            return false;
        }
        if i > 0 {
            let p = &nodes[i - 1];
            if !(p.end_byte <= n.start_byte && p.end_row <= n.start_row) {
                assert(nodes@[i - 1] == *p);
                assert(!in_order(nodes@[(i - 1) as int], nodes@[(i - 1) + 1]));
                return false;
            }
        }
        let ghost t = nodes@.take(i + 1);
        assert(nodes_fit(t, len as int)) by {
            assert forall|j: int| 0 <= j < t.len() implies node_fits(#[trigger] t[j], len as int) by {
                if j < i {
                    assert(t[j] == nodes@.take(i as int)[j]);
                }
            }
            assert forall|j: int| 0 <= j < t.len() - 1 implies #[trigger] in_order(t[j], t[j + 1]) by {
                if j + 1 < i {
                    assert(t[j] == nodes@.take(i as int)[j]);
                    assert(t[j + 1] == nodes@.take(i as int)[j + 1]);
                    assert(in_order(nodes@.take(i as int)[j], nodes@.take(i as int)[j + 1]));
                }
            }
        }
        i = i + 1;
    }
    assert(nodes@.take(nodes.len() as int) =~= nodes@);
    true
}

/// The grammar-based chunks of a file: `None` when no grammar is wired for
/// the language, tree-sitter does not parse, a node falls outside the text,
/// or no chunk comes out.
pub open spec fn grammar_chunks(relative: Seq<char>, language: Seq<char>, content: Seq<char>) -> Option<Seq<ChunkView>> {
    match grammar_of(language) {
        None => None,
        Some(g) => match parsed_top_level(g, content) {
            None => None,
            Some(nodes) => {
                let bytes = encode_utf8(content);
                if !nodes_fit(nodes, bytes.len() as int) {
                    None
                } else {
                    let cs = node_chunks(relative, language, bytes, nodes);
                    if cs.len() == 0 {
                        None
                    } else {
                        Some(cs)
                    }
                }
            },
        },
    }
}

/// The nodes that become chunks, in order.
pub open spec fn kept_nodes(bytes: Seq<u8>, nodes: Seq<TopNode>) -> Seq<TopNode>
    decreases nodes.len(),
{
    if nodes.len() == 0 {
        seq![]
    } else {
        let rest = kept_nodes(bytes, nodes.drop_last());
        if node_kept(bytes, nodes.last()) {
            rest.push(nodes.last())
        } else {
            rest
        }
    }
}

/// One chunk per kept node, in the nodes' order.
pub proof fn lemma_node_chunks_are_kept_nodes(
    relative: Seq<char>,
    language: Seq<char>,
    bytes: Seq<u8>,
    nodes: Seq<TopNode>,
)
    ensures
        node_chunks(relative, language, bytes, nodes) == kept_nodes(bytes, nodes).map_values(
            |n: TopNode| node_chunk(relative, language, bytes, n),
        ),
        forall|k: int| 0 <= k < kept_nodes(bytes, nodes).len() ==> node_kept(bytes, #[trigger] kept_nodes(bytes, nodes)[k]),
    decreases nodes.len(),
{
    if nodes.len() > 0 {
        lemma_node_chunks_are_kept_nodes(relative, language, bytes, nodes.drop_last());
        let rest = kept_nodes(bytes, nodes.drop_last());
        let f = |n: TopNode| node_chunk(relative, language, bytes, n);
        if node_kept(bytes, nodes.last()) {
            assert(rest.push(nodes.last()).map_values(f) =~= rest.map_values(f).push(f(nodes.last())));
            let k = kept_nodes(bytes, nodes);
            assert forall|j: int| 0 <= j < k.len() implies node_kept(bytes, #[trigger] k[j]) by {
                if j < rest.len() {
                    assert(k[j] == rest[j]);
                }
            }
        }
    }
}

proof fn lemma_nodes_fit_drop_last(nodes: Seq<TopNode>, len: int)
    requires
        nodes_fit(nodes, len),
        nodes.len() > 0,
    ensures
        nodes_fit(nodes.drop_last(), len),
{
    let d = nodes.drop_last();
    assert forall|i: int| 0 <= i < d.len() implies node_fits(#[trigger] d[i], len) by {
        assert(d[i] == nodes[i]);
    }
    assert forall|i: int| 0 <= i < d.len() - 1 implies #[trigger] in_order(d[i], d[i + 1]) by {
        assert(d[i] == nodes[i]);
        assert(d[i + 1] == nodes[i + 1]);
        assert(in_order(nodes[i], nodes[i + 1]));
    }
}

/// Chunks of nodes that fit and follow one another have line ranges that
/// start at line 1 or later, do not end before they start, and follow one
/// another: each chunk ends no later than the next one starts.
pub proof fn lemma_node_chunks_ordered(
    relative: Seq<char>,
    language: Seq<char>,
    bytes: Seq<u8>,
    nodes: Seq<TopNode>,
)
    requires
        nodes_fit(nodes, bytes.len() as int),
    ensures
        ({
            let cs = node_chunks(relative, language, bytes, nodes);
            &&& forall|k: int| 0 <= k < cs.len() ==> 1 <= (#[trigger] cs[k]).line_start <= cs[k].line_end
            &&& forall|k: int| 0 <= k < cs.len() - 1 ==> (#[trigger] cs[k]).line_end <= cs[k + 1].line_start
            &&& cs.len() > 0 ==> cs.last().line_end <= nodes.last().end_row + 1
        }),
    decreases nodes.len(),
{
    if nodes.len() > 0 {
        let d = nodes.drop_last();
        lemma_nodes_fit_drop_last(nodes, bytes.len() as int);
        lemma_node_chunks_ordered(relative, language, bytes, d);
        let rest = node_chunks(relative, language, bytes, d);
        let cs = node_chunks(relative, language, bytes, nodes);
        let last = nodes.last();
        assert(node_fits(nodes[nodes.len() - 1], bytes.len() as int));
        if d.len() > 0 {
            assert(in_order(nodes[nodes.len() - 2], nodes[(nodes.len() - 2) + 1]));
            assert(d.last() == nodes[nodes.len() - 2]);
        }
        if rest.len() > 0 {
            assert(d.len() > 0) by {
                if d.len() == 0 {
                    assert(rest.len() == 0);
                }
            }
        }
        if node_kept(bytes, last) {
            assert(cs == rest.push(node_chunk(relative, language, bytes, last)));
            assert forall|k: int| 0 <= k < cs.len() implies 1 <= (#[trigger] cs[k]).line_start <= cs[k].line_end by {
                if k < rest.len() {
                    assert(cs[k] == rest[k]);
                }
            }
            assert forall|k: int| 0 <= k < cs.len() - 1 implies (#[trigger] cs[k]).line_end <= cs[k + 1].line_start by {
                assert(cs[k] == rest[k]);
                if k + 1 < rest.len() {
                    assert(cs[k + 1] == rest[k + 1]);
                }
            }
        }
    }
}

/// An empty text keeps no node: every node that fits is empty, and so blank.
pub proof fn lemma_empty_text_keeps_no_node(nodes: Seq<TopNode>)
    requires
        nodes_fit(nodes, 0),
    ensures
        kept_nodes(Seq::<u8>::empty(), nodes).len() == 0,
    decreases nodes.len(),
{
    if nodes.len() > 0 {
        lemma_nodes_fit_drop_last(nodes, 0);
        lemma_empty_text_keeps_no_node(nodes.drop_last());
        let n = nodes.last();
        assert(node_fits(nodes[nodes.len() - 1], 0));
        let b = Seq::<u8>::empty().subrange(n.start_byte as int, n.end_byte as int);
        assert(b =~= Seq::<u8>::empty());
        assert(decode_utf8(Seq::<u8>::empty()) =~= Seq::<char>::empty());
        assert(is_blank(node_body(Seq::<u8>::empty(), n)));
    }
}

/// Which parsed nodes the grammar chunks come from, in order: one position
/// per chunk, increasing.
proof fn node_chunk_sources(relative: Seq<char>, language: Seq<char>, bytes: Seq<u8>, nodes: Seq<TopNode>) -> (js: Seq<int>)
    ensures
        js.len() == node_chunks(relative, language, bytes, nodes).len(),
        forall|k: int| 0 <= k < js.len() ==> 0 <= #[trigger] js[k] < nodes.len(),
        forall|a: int, b: int| 0 <= a < b < js.len() ==> #[trigger] js[a] < #[trigger] js[b],
        forall|k: int| 0 <= k < js.len() ==> node_kept(bytes, nodes[#[trigger] js[k]]),
        forall|k: int|
            0 <= k < js.len() ==> #[trigger] node_chunks(relative, language, bytes, nodes)[k] == node_chunk(
                relative,
                language,
                bytes,
                nodes[js[k]],
            ),
        forall|j: int| 0 <= j < nodes.len() && node_kept(bytes, #[trigger] nodes[j]) ==> exists|k: int| 0 <= k < js.len() && js[k] == j,
    decreases nodes.len(),
{
    if nodes.len() == 0 {
        seq![]
    } else {
        let d = nodes.drop_last();
        let js0 = node_chunk_sources(relative, language, bytes, d);
        let rest = node_chunks(relative, language, bytes, d);
        let cs = node_chunks(relative, language, bytes, nodes);
        let last = (nodes.len() - 1) as int;
        let js = if node_kept(bytes, nodes.last()) { js0.push(last) } else { js0 };
        if node_kept(bytes, nodes.last()) {
            assert(cs == rest.push(node_chunk(relative, language, bytes, nodes.last())));
        } else {
            assert(cs == rest);
        }
        assert forall|k: int| 0 <= k < js.len() implies node_kept(bytes, nodes[#[trigger] js[k]]) by {
            if k < js0.len() {
                assert(js[k] == js0[k]);
                assert(node_kept(bytes, d[js0[k]]));
                assert(d[js0[k]] == nodes[js0[k]]);
            } else {
                assert(js[k] == last);
                assert(nodes[last] == nodes.last());
            }
        }
        assert forall|k: int| 0 <= k < js.len() implies #[trigger] cs[k] == node_chunk(relative, language, bytes, nodes[js[k]]) by {
            if k < js0.len() {
                assert(js[k] == js0[k]);
                assert(rest[k] == node_chunk(relative, language, bytes, d[js0[k]]));
                assert(d[js0[k]] == nodes[js0[k]]);
                assert(cs[k] == rest[k]);
            } else {
                assert(js[k] == last);
                assert(nodes[last] == nodes.last());
                assert(cs[k] == node_chunk(relative, language, bytes, nodes.last()));
            }
        }
        assert forall|a: int, b: int| 0 <= a < b < js.len() implies #[trigger] js[a] < #[trigger] js[b] by {
            assert(js[a] == js0[a]);
            if b < js0.len() {
                assert(js[b] == js0[b]);
            }
        }
        assert forall|k: int| 0 <= k < js.len() implies 0 <= #[trigger] js[k] < nodes.len() by {
            if k < js0.len() {
                assert(js[k] == js0[k]);
            }
        }
        assert forall|j: int| 0 <= j < nodes.len() && node_kept(bytes, #[trigger] nodes[j]) implies exists|k: int|
            0 <= k < js.len() && js[k] == j by {
            if j < last {
                assert(d[j] == nodes[j]);
                let k = choose|k: int| 0 <= k < js0.len() && js0[k] == j;
                assert(js[k] == j);
            } else {
                assert(js[js.len() - 1] == j);
            }
        }
        js
    }
}

/// Each grammar chunk is the chunk of one named top-level node of the
/// parse, taken in the parse's order: its path and language are the file's,
/// its text is the header followed by the node's source bytes decoded in
/// full (which are valid UTF-8 and not blank), its lines are the node's
/// rows counted from 1, and its hash is that of its text. Every named node
/// whose source is valid UTF-8 and not blank has its chunk. The result gives,
/// chunk by chunk, the position of that node among the parsed nodes.
pub proof fn lemma_grammar_chunk_sources(relative: Seq<char>, language: Seq<char>, content: Seq<char>) -> (js: Seq<int>)
    ensures
        grammar_chunks(relative, language, content) matches Some(cs) ==> {
            let nodes = parsed_top_level(grammar_of(language)->0, content)->0;
            let bytes = encode_utf8(content);
            {
                &&& js.len() == cs.len()
                &&& forall|k: int| 0 <= k < js.len() ==> 0 <= #[trigger] js[k] < nodes.len()
                &&& forall|a: int, b: int| 0 <= a < b < js.len() ==> #[trigger] js[a] < #[trigger] js[b]
                &&& forall|k: int| 0 <= k < cs.len() ==> {
                    let n = nodes[js[k]];
                    let b = bytes.subrange(n.start_byte as int, n.end_byte as int);
                    &&& n.named
                    &&& valid_utf8(b)
                    &&& !is_blank(decode_utf8(b))
                    &&& (#[trigger] cs[k]).relative == relative
                    &&& cs[k].language == language
                    &&& cs[k].text == "// "@ + relative + " ("@ + language + ")\n"@ + decode_utf8(b)
                    &&& cs[k].line_start == n.start_row + 1
                    &&& cs[k].line_end == n.end_row + 1
                    &&& cs[k].hash == hex_lower(sha256_of(encode_utf8(cs[k].text)).take(8))
                }
                &&& forall|j: int|
                    0 <= j < nodes.len() && (#[trigger] nodes[j]).named && valid_utf8(
                        bytes.subrange(nodes[j].start_byte as int, nodes[j].end_byte as int),
                    ) && !is_blank(decode_utf8(bytes.subrange(nodes[j].start_byte as int, nodes[j].end_byte as int)))
                        ==> exists|k: int| 0 <= k < js.len() && js[k] == j
            }
        },
{
    if let Some(g) = grammar_of(language) {
        if let Some(nodes) = parsed_top_level(g, content) {
            let bytes = encode_utf8(content);
            if nodes_fit(nodes, bytes.len() as int) {
                let cs = node_chunks(relative, language, bytes, nodes);
                let js = node_chunk_sources(relative, language, bytes, nodes);
                assert forall|k: int| 0 <= k < cs.len() implies {
                    let n = nodes[js[k]];
                    let b = bytes.subrange(n.start_byte as int, n.end_byte as int);
                    &&& n.named
                    &&& valid_utf8(b)
                    &&& !is_blank(decode_utf8(b))
                    &&& (#[trigger] cs[k]).relative == relative
                    &&& cs[k].language == language
                    &&& cs[k].text == "// "@ + relative + " ("@ + language + ")\n"@ + decode_utf8(b)
                    &&& cs[k].line_start == n.start_row + 1
                    &&& cs[k].line_end == n.end_row + 1
                    &&& cs[k].hash == hex_lower(sha256_of(encode_utf8(cs[k].text)).take(8))
                } by {
                    let n = nodes[js[k]];
                    let b = bytes.subrange(n.start_byte as int, n.end_byte as int);
                    assert(cs[k] == node_chunk(relative, language, bytes, n));
                    assert(node_kept(bytes, nodes[js[k]]));
                    if !valid_utf8(b) {
                        assert(node_body(bytes, n) =~= Seq::<char>::empty());
                    }
                    assert(node_fits(nodes[js[k]], bytes.len() as int));
                }
                assert forall|j: int|
                    0 <= j < nodes.len() && (#[trigger] nodes[j]).named && valid_utf8(
                        bytes.subrange(nodes[j].start_byte as int, nodes[j].end_byte as int),
                    ) && !is_blank(decode_utf8(bytes.subrange(nodes[j].start_byte as int, nodes[j].end_byte as int)))
                    implies exists|k: int| 0 <= k < js.len() && js[k] == j by {
                    assert(node_kept(bytes, nodes[j]));
                }
                return js;
            }
        }
    }
    seq![]
}

/// The grammar chunks of a file are `None` exactly when no grammar is wired
/// for the language, tree-sitter does not parse, the nodes do not fit, or
/// no named node has non-blank text. Otherwise they are one chunk per such
/// node, in order, with line ranges that start at 1 or later, do not end
/// before they start, and follow one another.
pub proof fn lemma_grammar_chunks(relative: Seq<char>, language: Seq<char>, content: Seq<char>)
    ensures
        grammar_chunks(relative, language, content) is None <==> ({
            ||| grammar_of(language) is None
            ||| parsed_top_level(grammar_of(language)->0, content) is None
            ||| !nodes_fit(parsed_top_level(grammar_of(language)->0, content)->0, encode_utf8(content).len() as int)
            ||| kept_nodes(encode_utf8(content), parsed_top_level(grammar_of(language)->0, content)->0).len() == 0
        }),
        grammar_chunks(relative, language, content) matches Some(cs) ==> {
            let nodes = parsed_top_level(grammar_of(language)->0, content)->0;
            let bytes = encode_utf8(content);
            &&& cs.len() > 0
            &&& cs == kept_nodes(bytes, nodes).map_values(|n: TopNode| node_chunk(relative, language, bytes, n))
            &&& forall|k: int| 0 <= k < cs.len() ==> 1 <= (#[trigger] cs[k]).line_start <= cs[k].line_end
            &&& forall|k: int| 0 <= k < cs.len() - 1 ==> (#[trigger] cs[k]).line_end <= cs[k + 1].line_start
        },
{
    if let Some(g) = grammar_of(language) {
        if let Some(nodes) = parsed_top_level(g, content) {
            let bytes = encode_utf8(content);
            lemma_node_chunks_are_kept_nodes(relative, language, bytes, nodes);
            if nodes_fit(nodes, bytes.len() as int) {
                lemma_node_chunks_ordered(relative, language, bytes, nodes);
            }
        }
    }
}

/// Boundary-aware chunking: one chunk per top-level named construct
/// (function, type, import, ...). Returns `None` when no grammar is wired
/// for the language, so that the caller falls back to line windows.
pub fn chunk_with_grammar(relative: &str, language: &str, content: &str) -> (r: Option<Vec<Chunk>>)
    ensures
        r.is_some() == grammar_chunks(relative@, language@, content@).is_some(),
        r.is_some() ==> chunks_view(r.unwrap()@) == grammar_chunks(relative@, language@, content@).unwrap(),
        r.is_some() ==> hashes_well_formed(r.unwrap()@),
{
    let grammar = match grammar_for(language) {
        Some(g) => g,
        None => return None,
    };
    let handle = load_grammar(grammar);
    let nodes = match parse_top_level(&handle, content) {
        Some(nodes) => nodes,
        None => return None,
    };
    let len = content.as_bytes().len();
    if !check_nodes_fit(&nodes, len) {
        return None;
    }
    let chunks = chunks_from_nodes(relative, language, content, &nodes);
    if chunks.len() == 0 {
        None
    } else {
        Some(chunks)
    }
}

} // verus!
