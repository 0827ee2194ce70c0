use rebase_indexer::chunk::chunk_lines;
use rebase_indexer::index::{
    chunk_changed, manifest_of, pair_embeddings, paths_to_delete, plan_index, snippet, SourceFile,
};
use rebase_indexer::manifest::{file_hash, Manifest};
use rebase_indexer::walk::FileEntry;
use std::path::PathBuf;

fn file(relative: &str, language: &str, content: &str) -> SourceFile {
    SourceFile {
        entry: FileEntry {
            path: PathBuf::from(relative),
            relative: relative.to_string(),
            language: language.to_string(),
        },
        content: content.to_string(),
        hash: file_hash(content),
    }
}

#[test]
fn plan_finds_changed_new_and_removed_files() {
    let files = vec![
        file("same.yaml", "yaml", "a: 1\n"),
        file("edited.yaml", "yaml", "b: 2\n"),
        file("new.yaml", "yaml", "c: 3\n"),
    ];
    let mut prev = Manifest::new();
    prev.insert("same.yaml".to_string(), file_hash("a: 1\n"));
    prev.insert("gone.yaml".to_string(), "0123".to_string());
    prev.insert("edited.yaml".to_string(), file_hash("b: 1\n"));
    let plan = plan_index(&files, &prev);
    assert_eq!(plan.changed, vec![1, 2]);
    assert_eq!(plan.removed, vec!["gone.yaml".to_string()]);
    assert!(!plan.up_to_date(true));
    assert_eq!(
        paths_to_delete(&files, &plan),
        vec!["edited.yaml".to_string(), "new.yaml".to_string(), "gone.yaml".to_string()]
    );
    let chunks = chunk_changed(&files, &plan.changed);
    assert_eq!(chunks.len(), 2);
    assert_eq!(chunks[0].relative, "edited.yaml");
    assert_eq!(chunks[1].relative, "new.yaml");
}

#[test]
fn reindexing_unchanged_files_is_up_to_date() {
    let files = vec![file("a.yaml", "yaml", "a: 1\n"), file("b.md", "markdown", "# b\n")];
    let m = manifest_of(&files);
    assert_eq!(m.len(), 2);
    assert_eq!(m.get("b.md").map(|s| s.as_str()), Some(file_hash("# b\n").as_str()));
    let plan = plan_index(&files, &m);
    assert!(plan.changed.is_empty());
    assert!(plan.removed.is_empty());
    assert!(plan.up_to_date(true));
    assert!(!plan.up_to_date(false));
}

#[test]
fn pairing_drops_missing_embeddings_and_rejects_count_mismatch() {
    let chunks = chunk_lines("a.yaml", "yaml", &"x\n".repeat(120));
    assert_eq!(chunks.len(), 3);
    let texts: Vec<String> = chunks.iter().map(|c| c.text.clone()).collect();
    let records = pair_embeddings(chunks, vec![Some(1.0f32), None, Some(3.0f32)]).unwrap();
    assert_eq!(records.len(), 2);
    assert_eq!(records[0].0.text, texts[0]);
    assert_eq!(records[0].1, 1.0);
    assert_eq!(records[1].0.text, texts[2]);
    assert_eq!(records[1].1, 3.0);
    let chunks = chunk_lines("a.yaml", "yaml", "x\n");
    assert!(pair_embeddings(chunks, Vec::<Option<f32>>::new()).is_none());
}

#[test]
fn snippet_shows_three_lines() {
    assert_eq!(snippet("// a (b)\nl1\nl2\nl3\n"), "// a (b)\n    l1\n    l2");
    assert_eq!(snippet("one"), "one");
    assert_eq!(snippet(""), "");
    assert_eq!(snippet("x\r\ny\n"), "x\n    y");
}
