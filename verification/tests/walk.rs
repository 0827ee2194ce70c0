use rebase_indexer::walk::{entry_language, language_for, looks_binary, size_admitted, slash_path};

#[test]
fn language_for_maps_known_extensions() {
    assert_eq!(language_for("main.rs"), Some("rust"));
    assert_eq!(language_for("App.tsx"), Some("typescript"));
    assert_eq!(language_for("index.JSX"), Some("javascript")); // case-insensitive
    assert_eq!(language_for("page.vue"), Some("vue"));
    assert_eq!(language_for("mix.exs"), Some("elixir"));
    assert_eq!(language_for("node.erl"), Some("erlang"));
    assert_eq!(language_for("style.scss"), Some("css"));
}

#[test]
fn language_for_rejects_unknown_and_extensionless() {
    assert_eq!(language_for("a.out"), None);
    assert_eq!(language_for("Makefile"), None);
    assert_eq!(language_for("LICENSE"), None);
    // A name that equals a known extension but has no dot is not indexed.
    assert_eq!(language_for("go"), None);
    assert_eq!(language_for("rs"), None);
    assert_eq!(language_for(".rs"), Some("rust"));
}

#[test]
fn looks_binary_detects_null_byte() {
    assert!(looks_binary(b"\x7fELF\x00\x00"));
    assert!(!looks_binary(b"fn main() {}\n"));
    // null beyond the 256-byte sniff window is not inspected
    let mut late = vec![b'a'; 300];
    late[280] = 0;
    assert!(!looks_binary(&late));
}

#[test]
fn entry_language_prunes_git_and_filters_by_language() {
    let comps = |v: &[&str]| v.iter().map(|s| s.to_string()).collect::<Vec<String>>();
    let none: Vec<String> = vec![];
    assert_eq!(entry_language(true, &comps(&["root", "keep.rs"]), "keep.rs", &none), Some("rust"));
    assert_eq!(entry_language(false, &comps(&["root", "dir.rs"]), "dir.rs", &none), None);
    assert_eq!(entry_language(true, &comps(&["root", ".git", "config.rs"]), "config.rs", &none), None);
    assert_eq!(entry_language(true, &comps(&["root", "ignore.unknown"]), "ignore.unknown", &none), None);
    let rust = vec!["rust".to_string()];
    assert_eq!(entry_language(true, &comps(&["notes.md"]), "notes.md", &rust), None);
    assert_eq!(entry_language(true, &comps(&["keep.rs"]), "keep.rs", &rust), Some("rust"));
}

#[test]
fn size_admits_only_non_empty_files_under_the_cap() {
    assert!(!size_admitted(0, 500));
    assert!(size_admitted(1, 500));
    assert!(size_admitted(500, 500));
    assert!(!size_admitted(1000, 500));
}

#[test]
fn relative_paths_use_forward_slashes() {
    assert_eq!(slash_path("a\\b\\c.rs"), "a/b/c.rs");
    assert_eq!(slash_path("node_modules/dep/lib.rs"), "node_modules/dep/lib.rs");
}

#[test]
fn custom_ignore_files_in_precedence_order() {
    assert_eq!(
        rebase_indexer::walk::custom_ignore_files(),
        vec![".rebaseignore", ".aiexclude", ".aiignore", ".codeiumignore", ".cursorignore"]
    );
}

#[test]
fn extension_is_after_the_last_dot() {
    assert_eq!(rebase_indexer::walk::extension_of("a.tar.gz").as_deref(), Some("gz"));
    assert_eq!(rebase_indexer::walk::extension_of("Makefile"), None);
    assert_eq!(rebase_indexer::walk::extension_of("trailing.").as_deref(), Some(""));
}
