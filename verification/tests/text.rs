use rebase_indexer::chunk::chunk_lines;
use rebase_indexer::text::{str_eq, str_is_blank};

#[test]
fn crlf_line_endings_are_dropped_from_chunk_text() {
    let chunks = chunk_lines("w.yaml", "yaml", "a: 1\r\nb: 2\r\n");
    assert_eq!(chunks.len(), 1);
    assert_eq!(chunks[0].text, "// w.yaml (yaml)\na: 1\nb: 2");
    assert_eq!((chunks[0].line_start, chunks[0].line_end), (1, 2));
}

#[test]
fn final_line_without_newline_counts_and_blank_lines_stay() {
    let chunks = chunk_lines("w.yaml", "yaml", "a\n\nb");
    assert_eq!(chunks[0].line_end, 3);
    assert_eq!(chunks[0].text, "// w.yaml (yaml)\na\n\nb");
    // A lone carriage return at the very end is kept, as `str::lines` keeps it.
    let chunks = chunk_lines("w.yaml", "yaml", "a\r");
    assert_eq!(chunks[0].text, "// w.yaml (yaml)\na\r");
}

#[test]
fn window_count_at_the_edges() {
    let n60: String = "x\n".repeat(60);
    assert_eq!(chunk_lines("f", "yaml", &n60).len(), 1);
    let n61: String = "x\n".repeat(61);
    let c = chunk_lines("f", "yaml", &n61);
    assert_eq!(c.len(), 2);
    assert_eq!((c[1].line_start, c[1].line_end), (51, 61));
    let n110: String = "x\n".repeat(110);
    assert_eq!(chunk_lines("f", "yaml", &n110).len(), 2);
    let n111: String = "x\n".repeat(111);
    assert_eq!(chunk_lines("f", "yaml", &n111).len(), 3);
}

#[test]
fn blank_means_white_space_only() {
    assert!(str_is_blank(""));
    assert!(str_is_blank(" \t\n\u{3000}"));
    assert!(!str_is_blank("  x "));
    assert!(str_eq("abc", "abc"));
    assert!(!str_eq("abc", "abd"));
}

#[test]
fn white_space_matches_std_for_every_char() {
    for u in 0u32..=0x10FFFF {
        if let Some(c) = char::from_u32(u) {
            let s = c.to_string();
            assert_eq!(str_is_blank(&s), c.is_whitespace(), "U+{u:04X}");
        }
    }
}
