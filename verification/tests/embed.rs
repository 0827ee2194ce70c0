use rebase_indexer::embed::{clamp, clamp_inputs, embed_url, EmbedProgress, EmbedStep, MAX_INPUT_CHARS};

#[test]
fn clamp_keeps_short_text() {
    assert_eq!(clamp("hello"), "hello");
    let exact = "x".repeat(MAX_INPUT_CHARS);
    assert_eq!(clamp(&exact), exact);
}

#[test]
fn clamp_cuts_long_ascii_at_the_cap() {
    let long = "y".repeat(MAX_INPUT_CHARS + 5);
    assert_eq!(clamp(&long).len(), MAX_INPUT_CHARS);
}

#[test]
fn clamp_cuts_on_a_char_boundary() {
    // 7999 ASCII bytes then a 3-byte char: byte 8000 falls inside it.
    let text = format!("{}€tail", "a".repeat(7999));
    let c = clamp(&text);
    assert_eq!(c.len(), 7999);
    assert!(text.starts_with(&c));
    let inputs = clamp_inputs(&[text.clone(), "ok".to_string()]);
    assert_eq!(inputs.len(), 2);
    assert_eq!(inputs[0], c);
    assert_eq!(inputs[1], "ok");
}

#[test]
fn embed_url_trims_trailing_slashes() {
    assert_eq!(embed_url("http://localhost:11434"), "http://localhost:11434/api/embed");
    assert_eq!(embed_url("http://localhost:11434//"), "http://localhost:11434/api/embed");
}

#[test]
fn embed_plan_batches_and_retries_singly() {
    let mut p: EmbedProgress<u32> = EmbedProgress::new(70);
    match p.step() {
        EmbedStep::Batch { start, end } => assert_eq!((start, end), (0, 32)),
        _ => panic!("expected a batch"),
    }
    p.batch_succeeded((0..32).collect());
    match p.step() {
        EmbedStep::Batch { start, end } => assert_eq!((start, end), (32, 64)),
        _ => panic!("expected a batch"),
    }
    p.batch_failed();
    for i in 32..64u32 {
        match p.step() {
            EmbedStep::Single { index } => assert_eq!(index, i as usize),
            _ => panic!("expected a single"),
        }
        if i == 40 {
            p.single_done(None);
        } else if i == 41 {
            p.single_done(Some(vec![]));
        } else {
            p.single_done(Some(vec![999, i]));
        }
    }
    match p.step() {
        EmbedStep::Batch { start, end } => assert_eq!((start, end), (64, 70)),
        _ => panic!("expected a batch"),
    }
    p.batch_succeeded((64..70).collect());
    assert!(matches!(p.step(), EmbedStep::Finished));
    let out = p.finish();
    assert_eq!(out.len(), 70);
    assert_eq!(out[0], Some(0));
    assert_eq!(out[33], Some(33));
    assert_eq!(out[40], None);
    assert_eq!(out[41], None);
    assert_eq!(out[69], Some(69));
}

#[test]
fn embed_plan_for_no_texts_is_finished() {
    let p: EmbedProgress<u32> = EmbedProgress::new(0);
    assert!(matches!(p.step(), EmbedStep::Finished));
    assert!(p.finish().is_empty());
}

#[test]
fn batch_answer_with_wrong_count_is_retried_per_text() {
    let mut p: EmbedProgress<u32> = EmbedProgress::new(3);
    assert!(matches!(p.step(), EmbedStep::Batch { start: 0, end: 3 }));
    // Only two vectors for three texts: treated as a failed batch.
    p.batch_succeeded(vec![7, 8]);
    for i in 0..3usize {
        match p.step() {
            EmbedStep::Single { index } => assert_eq!(index, i),
            _ => panic!("expected a single"),
        }
        p.single_done(Some(vec![10 + i as u32]));
    }
    assert!(matches!(p.step(), EmbedStep::Finished));
    assert_eq!(p.finish(), vec![Some(10), Some(11), Some(12)]);
}

#[test]
fn one_text_batch_with_no_vector_still_gets_an_entry() {
    let mut p: EmbedProgress<u32> = EmbedProgress::new(1);
    p.batch_succeeded(vec![]);
    assert!(matches!(p.step(), EmbedStep::Single { index: 0 }));
    p.single_done(Some(vec![]));
    assert!(matches!(p.step(), EmbedStep::Finished));
    assert_eq!(p.finish(), vec![None]);
}
