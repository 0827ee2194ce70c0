use rebase_indexer::chunk::chunk_file;
use rebase_indexer::tschunk::{chunk_with_grammar, chunks_from_nodes, grammar_for, Grammar, TopNode};

#[test]
fn rust_file_is_chunked_per_top_level_item() {
    let src = "fn a() {}\n\nfn b() {\n    1;\n}\n";
    let chunks = chunk_file("src/lib.rs", "rust", src);
    assert_eq!(chunks.len(), 2);
    assert_eq!((chunks[0].line_start, chunks[0].line_end), (1, 1));
    assert_eq!((chunks[1].line_start, chunks[1].line_end), (3, 5));
    assert_eq!(chunks[0].text, "// src/lib.rs (rust)\nfn a() {}");
    assert!(chunks[1].text.starts_with("// src/lib.rs (rust)\nfn b() {"));
    assert_eq!(chunks[0].hash.len(), 16);
    assert_ne!(chunks[0].hash, chunks[1].hash);
}

#[test]
fn unwired_language_has_no_grammar_chunks() {
    assert!(chunk_with_grammar("a.yaml", "yaml", "x: 1\n").is_none());
    assert!(grammar_for("yaml").is_none());
    assert!(matches!(grammar_for("rust"), Some(Grammar::Rust)));
    assert!(matches!(grammar_for("typescript"), Some(Grammar::TypeScript)));
}

#[test]
fn empty_source_falls_back_to_no_chunks() {
    assert!(chunk_with_grammar("a.rs", "rust", "").is_none());
    assert!(chunk_file("a.rs", "rust", "").is_empty());
}

#[test]
fn unnamed_and_blank_nodes_are_skipped() {
    let content = "ab  cd";
    let nodes = vec![
        TopNode { named: true, start_byte: 0, end_byte: 2, start_row: 0, end_row: 0 },
        TopNode { named: true, start_byte: 2, end_byte: 4, start_row: 0, end_row: 0 },
        TopNode { named: false, start_byte: 4, end_byte: 6, start_row: 2, end_row: 3 },
        TopNode { named: true, start_byte: 4, end_byte: 6, start_row: 2, end_row: 3 },
    ];
    let chunks = chunks_from_nodes("x.go", "go", content, &nodes);
    assert_eq!(chunks.len(), 2);
    assert_eq!(chunks[0].text, "// x.go (go)\nab");
    assert_eq!((chunks[1].line_start, chunks[1].line_end), (3, 4));
    assert_eq!(chunks[1].text, "// x.go (go)\ncd");
}

#[test]
fn node_splitting_a_character_gets_an_empty_body() {
    // "é" is two bytes; a node over its first byte is not valid UTF-8.
    let nodes = vec![TopNode { named: true, start_byte: 0, end_byte: 1, start_row: 0, end_row: 0 }];
    let chunks = chunks_from_nodes("x.c", "c", "é", &nodes);
    // The empty body is blank, so no chunk comes out.
    assert!(chunks.is_empty());
}

#[test]
fn every_wired_grammar_parses_its_language() {
    let samples = [
        ("rust", "fn main() {}\n"),
        ("go", "package main\n\nfunc main() {}\n"),
        ("python", "def f():\n    return 1\n"),
        ("javascript", "function f() { return 1; }\n"),
        ("typescript", "function f(): number { return 1; }\n"),
        ("php", "<?php\nfunction f() { return 1; }\n"),
        ("java", "class A { void f() {} }\n"),
        ("c", "int main(void) { return 0; }\n"),
        ("cpp", "int main() { return 0; }\n"),
        ("ruby", "def f\n  1\nend\n"),
        ("css", "a { color: red; }\n"),
        ("html", "<p>hi</p>\n"),
        ("elixir", "defmodule A do\nend\n"),
        ("erlang", "-module(a).\n"),
    ];
    for (language, src) in samples {
        let chunks = chunk_with_grammar("f", language, src);
        assert!(chunks.is_some(), "no grammar chunks for {language}");
        let chunks = chunks.unwrap();
        assert_eq!(chunks[0].line_start, 1, "{language}");
        assert!(chunks[0].text.starts_with(&format!("// f ({language})\n")));
    }
}

#[test]
fn grammar_chunks_follow_one_another() {
    let src = "use a::b;\n\nfn f() {\n}\n// note\nstruct S;\n";
    let chunks = chunk_with_grammar("m.rs", "rust", src).unwrap();
    assert!(!chunks.is_empty());
    for w in chunks.windows(2) {
        assert!(w[0].line_end <= w[1].line_start);
    }
    for c in &chunks {
        assert!(1 <= c.line_start && c.line_start <= c.line_end);
    }
}

