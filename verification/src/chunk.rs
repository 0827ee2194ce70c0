//! Splitting a file into chunks of lines, each prefixed with its path.

use vstd::prelude::*;
use crate::digest::{hash_prefix_hex, is_hex_hash, short_hash};
use crate::tschunk::{chunk_with_grammar, grammar_chunks, lemma_empty_text_keeps_no_node, lemma_grammar_chunks, parsed_top_level, grammar_of};
use crate::text::{chars_of, join_lines, lemma_lines_empty, line_bounds, lines_of, locates_lines, push_char};
use vstd::utf8::encode_utf8;

verus! {

broadcast use vstd::string::group_string_axioms;

/// Lines per chunk.
pub const WINDOW: usize = 60;

/// Lines that consecutive chunks share.
pub const OVERLAP: usize = 10;

/// A piece of a file, ready to be embedded.
pub struct Chunk {
    pub relative: String,
    pub language: String,
    pub line_start: u32,
    pub line_end: u32,
    pub text: String,
    pub hash: String,
}

/// What a chunk holds, with its strings as character sequences.
pub struct ChunkView {
    pub relative: Seq<char>,
    pub language: Seq<char>,
    pub line_start: u32,
    pub line_end: u32,
    pub text: Seq<char>,
    pub hash: Seq<char>,
}

impl View for Chunk {
    type V = ChunkView;

    open spec fn view(&self) -> ChunkView {
        ChunkView {
            relative: self.relative@,
            language: self.language@,
            line_start: self.line_start,
            line_end: self.line_end,
            text: self.text@,
            hash: self.hash@,
        }
    }
}

/// The views of a list of chunks.
pub open spec fn chunks_view(chunks: Seq<Chunk>) -> Seq<ChunkView> {
    chunks.map_values(|c: Chunk| c@)
}

/// Every chunk's hash is 16 lowercase hex characters.
pub open spec fn hashes_well_formed(chunks: Seq<Chunk>) -> bool {
    forall|k: int| 0 <= k < chunks.len() ==> is_hex_hash((#[trigger] chunks[k]).hash@, 8)
}

/// The first line of every chunk's text: the file's path and language.
pub open spec fn chunk_header(relative: Seq<char>, language: Seq<char>) -> Seq<char> {
    "// "@ + relative + " ("@ + language + ")\n"@
}

/// A chunk's text: the header followed by the chunk's body.
pub open spec fn chunk_text(relative: Seq<char>, language: Seq<char>, body: Seq<char>) -> Seq<char> {
    chunk_header(relative, language) + body
}

/// The hash of a chunk: the first 8 bytes of the SHA-256 digest of its
/// UTF-8 text, in hex.
pub open spec fn chunk_hash(text: Seq<char>) -> Seq<char> {
    short_hash(encode_utf8(text), 8)
}

/// The chunk with the given fields, its text built from the body and its
/// hash from the text.
pub open spec fn make_chunk(
    relative: Seq<char>,
    language: Seq<char>,
    line_start: u32,
    line_end: u32,
    body: Seq<char>,
) -> ChunkView {
    let text = chunk_text(relative, language, body);
    ChunkView { relative, language, line_start, line_end, text, hash: chunk_hash(text) }
}

/// How far one window starts after the previous one.
pub open spec fn window_step() -> int {
    if WINDOW - OVERLAP < 1 {
        1
    } else {
        WINDOW - OVERLAP
    }
}

/// How many windows cover `n` lines: windows start every `window_step()`
/// lines, and the last one is the first that reaches line `n`.
pub open spec fn window_count(n: int) -> int {
    if n <= 0 {
        0
    } else if n <= WINDOW {
        1
    } else {
        (n - WINDOW + window_step() - 1) / window_step() + 1
    }
}

/// The line (counted from 0) where window `k` starts.
pub open spec fn window_start(k: int) -> int {
    k * window_step()
}

/// The line (counted from 0) just past the end of window `k` over `n` lines.
pub open spec fn window_end(n: int, k: int) -> int {
    if window_start(k) + WINDOW < n {
        window_start(k) + WINDOW
    } else {
        n
    }
}

/// Window `k` of a file's lines as a chunk; line numbers count from 1.
pub open spec fn window_chunk(
    relative: Seq<char>,
    language: Seq<char>,
    lines: Seq<Seq<char>>,
    k: int,
) -> ChunkView {
    let s = window_start(k);
    let e = window_end(lines.len() as int, k);
    make_chunk(relative, language, (s + 1) as u32, e as u32, join_lines(lines.subrange(s, e)))
}

/// The line-window chunks of a file.
pub open spec fn line_chunks(relative: Seq<char>, language: Seq<char>, content: Seq<char>) -> Seq<ChunkView> {
    let lines = lines_of(content);
    Seq::new(window_count(lines.len() as int) as nat, |k: int| window_chunk(relative, language, lines, k))
}

/// Windows of a non-empty file start inside it, and exactly the last one
/// reaches its end.
pub proof fn lemma_window_bounds(n: int, k: int)
    requires
        n > 0,
        0 <= k < window_count(n),
    ensures
        window_start(k) < n,
        window_start(k) < window_end(n, k) <= n,
        (window_end(n, k) == n) <==> (k + 1 == window_count(n)),
{
    assert(window_step() == 50);
    if n > WINDOW {
        let c = (n - 11) / 50;
        assert(window_count(n) == c + 1);
        assert(50 * c <= n - 11 < 50 * c + 50);
        assert(k <= c);
        assert(window_start(k) == 50 * k);
    }
}

proof fn lemma_join_push(ls: Seq<Seq<char>>, x: Seq<char>)
    ensures
        join_lines(ls.push(x)) == if ls.len() == 0 {
            x
        } else {
            join_lines(ls) + seq!['\n'] + x
        },
{
    assert(ls.push(x).drop_last() =~= ls);
    if ls.len() == 0 {
        assert(ls.push(x).len() == 1);
    }
}

/// The text of the chunk made of lines `start..end`.
fn window_text(
    relative: &str,
    language: &str,
    cs: &Vec<char>,
    bounds: &Vec<(usize, usize)>,
    start: usize,
    end: usize,
) -> (r: String)
    requires
        start <= end <= bounds.len(),
        locates_lines(cs@, bounds@),
    ensures
        r@ == chunk_text(relative@, language@, join_lines(lines_of(cs@).subrange(start as int, end as int))),
{
    let ghost lines = lines_of(cs@);
    let mut t = String::new();
    t.append("// ");
    t.append(relative);
    t.append(" (");
    t.append(language);
    t.append(")\n");
    let ghost head = t@;
    assert(head == chunk_header(relative@, language@));
    let mut k = start;
    assert(lines.subrange(start as int, start as int) =~= Seq::<Seq<char>>::empty());
    while k < end
        invariant
            start <= k <= end <= bounds.len(),
            lines == lines_of(cs@),
            locates_lines(cs@, bounds@),
            t@ == head + join_lines(lines.subrange(start as int, k as int)),
        decreases end - k,
    {
        let ghost before = t@;
        proof {
            lemma_join_push(lines.subrange(start as int, k as int), lines[k as int]);
            assert(lines.subrange(start as int, k as int).push(lines[k as int])
                =~= lines.subrange(start as int, k + 1));
        }
        if k > start {
            push_char(&mut t, '\n');
        }
        let (b0, b1) = bounds[k];
        let ghost mid = t@;
        let mut j = b0;
        while j < b1
            invariant
                b0 <= j <= b1 <= cs.len(),
                t@ == mid + cs@.subrange(b0 as int, j as int),
            decreases b1 - j,
        {
            push_char(&mut t, cs[j]);
            assert(cs@.subrange(b0 as int, j as int).push(cs@[j as int])
                =~= cs@.subrange(b0 as int, j + 1));
            assert((mid + cs@.subrange(b0 as int, j as int)).push(cs@[j as int])
                =~= mid + cs@.subrange(b0 as int, j + 1));
            j = j + 1;
        }
        assert(t@ =~= head + join_lines(lines.subrange(start as int, k + 1)));
        k = k + 1;
    }
    t
}

/// Line-window chunking: windows of `WINDOW` lines, each starting
/// `WINDOW - OVERLAP` lines after the previous one, until a window reaches
/// the last line. An empty file gives no chunks.
pub fn chunk_lines(relative: &str, language: &str, content: &str) -> (r: Vec<Chunk>)
    requires
        lines_of(content@).len() <= u32::MAX,
    ensures
        chunks_view(r@) == line_chunks(relative@, language@, content@),
        hashes_well_formed(r@),
{
    let cs = chars_of(content);
    let bounds = line_bounds(&cs);
    let ghost lines = lines_of(content@);
    let n = bounds.len();
    let mut chunks: Vec<Chunk> = Vec::new();
    if n == 0 {
        assert(chunks_view(chunks@) =~= line_chunks(relative@, language@, content@));
        return chunks;
    }
    let step = WINDOW.saturating_sub(OVERLAP).max(1);
    let mut start: usize = 0;
    let ghost mut k: int = 0;
    loop
        invariant_except_break
            0 <= k < window_count(n as int),
            start == window_start(k),
        invariant
            n == bounds.len() == lines.len(),
            0 < n <= u32::MAX,
            lines == lines_of(cs@),
            cs@ == content@,
            step == window_step(),
            locates_lines(cs@, bounds@),
            chunks.len() == k,
            hashes_well_formed(chunks@),
            forall|j: int| 0 <= j < k ==> #[trigger] chunks[j]@ == window_chunk(relative@, language@, lines, j),
        ensures
            chunks.len() == window_count(n as int),
            forall|j: int| 0 <= j < chunks.len() ==> #[trigger] chunks[j]@ == window_chunk(relative@, language@, lines, j),
        decreases window_count(n as int) - k,
    {
        proof {
            lemma_window_bounds(n as int, k);
        }
        let end = if n - start > WINDOW { start + WINDOW } else { n };
        let text = window_text(relative, language, &cs, &bounds, start, end);
        let hash = hash_prefix_hex(text.as_str().as_bytes(), 8);
        let chunk = Chunk {
            relative: relative.to_string(),
            language: language.to_string(),
            line_start: (start as u32) + 1,
            line_end: end as u32,
            text,
            hash,
        };
        chunks.push(chunk);
        proof {
            assert(chunks[k]@ == window_chunk(relative@, language@, lines, k));
            let st = window_step();
            assert(st == 50);
            assert((k + 1) * st == k * st + st) by (nonlinear_arith);
            k = k + 1;
        }
        if end == n {
            break;
        }
        start = start + step;
    }
    assert(chunks_view(chunks@) =~= line_chunks(relative@, language@, content@));
    chunks
}

/// Line windows of a file with `n` lines (at most `u32::MAX`): none when the
/// file is empty; otherwise the first starts at line 1, the last ends at
/// line `n`, each spans at most `WINDOW` lines, and each overlaps the next
/// by exactly `OVERLAP` lines.
pub proof fn lemma_line_windows(relative: Seq<char>, language: Seq<char>, content: Seq<char>)
    requires
        lines_of(content).len() <= u32::MAX,
    ensures
        ({
            let cs = line_chunks(relative, language, content);
            let n = lines_of(content).len() as int;
            &&& (n == 0 <==> cs.len() == 0)
            &&& n > 0 ==> cs[0].line_start == 1 && cs[cs.len() - 1].line_end == n
            &&& forall|k: int|
                0 <= k < cs.len() ==> 1 <= (#[trigger] cs[k]).line_start <= cs[k].line_end <= n
                    && cs[k].line_end - cs[k].line_start + 1 <= WINDOW
            &&& forall|k: int|
                0 <= k < cs.len() - 1 ==> (#[trigger] cs[k]).line_end - cs[k + 1].line_start + 1 == OVERLAP
        }),
{
    let cs = line_chunks(relative, language, content);
    let n = lines_of(content).len() as int;
    assert(window_step() == 50);
    if n > 0 {
        assert(window_count(n) >= 1) by {
            if n > WINDOW {
                assert((n - WINDOW + window_step() - 1) / window_step() >= 0);
            }
        }
        lemma_window_bounds(n, 0);
        lemma_window_bounds(n, window_count(n) - 1);
        assert(cs[0].line_start == 1);
    }
    assert forall|k: int| 0 <= k < cs.len() implies 1 <= (#[trigger] cs[k]).line_start <= cs[k].line_end <= n
        && cs[k].line_end - cs[k].line_start + 1 <= WINDOW by {
        lemma_window_bounds(n, k);
        assert(window_start(k) == k * 50);
    }
    assert forall|k: int| 0 <= k < cs.len() - 1 implies (#[trigger] cs[k]).line_end - cs[k + 1].line_start + 1 == OVERLAP by {
        lemma_window_bounds(n, k);
        lemma_window_bounds(n, k + 1);
        assert(window_start(k) == k * 50);
        assert(window_start(k + 1) == k * 50 + 50) by (nonlinear_arith);
    }
}

/// Line window `k` of a file: it starts at line `50 k + 1`, ends at line
/// `min(50 k + 60, n)`, and its text is the header followed by those lines
/// joined with `'\n'`.
pub proof fn lemma_line_chunk_at(relative: Seq<char>, language: Seq<char>, content: Seq<char>, k: int)
    requires
        lines_of(content).len() <= u32::MAX,
        0 <= k < line_chunks(relative, language, content).len(),
    ensures
        ({
            let lines = lines_of(content);
            let n = lines.len() as int;
            let e = if k * 50 + 60 < n { k * 50 + 60 } else { n };
            let c = line_chunks(relative, language, content)[k];
            &&& c.line_start == k * 50 + 1
            &&& c.line_end == e
            &&& c.relative == relative
            &&& c.language == language
            &&& c.text == chunk_header(relative, language) + join_lines(lines.subrange(k * 50, e))
            &&& c.hash == chunk_hash(c.text)
        }),
{
    let n = lines_of(content).len() as int;
    assert(window_step() == 50);
    assert(window_start(k) == k * 50);
    lemma_window_bounds(n, k);
}

/// A file gets no chunk exactly when it is empty.
pub proof fn lemma_file_chunks_empty(relative: Seq<char>, language: Seq<char>, content: Seq<char>)
    requires
        lines_of(content).len() <= u32::MAX,
    ensures
        (file_chunks(relative, language, content).len() == 0) == (content.len() == 0),
{
    lemma_grammar_chunks(relative, language, content);
    lemma_lines_empty(content);
    lemma_line_windows(relative, language, content);
    if content.len() == 0 {
        assert(encode_utf8(content) =~= Seq::<u8>::empty());
        if let Some(g) = grammar_of(language) {
            if let Some(nodes) = parsed_top_level(g, content) {
                if crate::tschunk::nodes_fit(nodes, 0) {
                    lemma_empty_text_keeps_no_node(nodes);
                }
            }
        }
    }
}

/// Every chunk of a file starts at line 1 or later and does not end before
/// it starts.
pub proof fn lemma_file_chunks_lines(relative: Seq<char>, language: Seq<char>, content: Seq<char>)
    requires
        lines_of(content).len() <= u32::MAX,
    ensures
        forall|k: int|
            0 <= k < file_chunks(relative, language, content).len() ==> 1 <= (#[trigger] file_chunks(
                relative,
                language,
                content,
            )[k]).line_start <= file_chunks(relative, language, content)[k].line_end,
{
    lemma_grammar_chunks(relative, language, content);
    lemma_line_windows(relative, language, content);
}

/// Every chunk of a file carries the file's path and language, its text
/// starts with the header naming them, and its hash is that of its text.
pub open spec fn labelled(c: ChunkView, relative: Seq<char>, language: Seq<char>) -> bool {
    &&& c.relative == relative
    &&& c.language == language
    &&& c.text.take(chunk_header(relative, language).len() as int) == chunk_header(relative, language)
    &&& c.hash == chunk_hash(c.text)
}

pub proof fn lemma_make_chunk_labelled(relative: Seq<char>, language: Seq<char>, s: u32, e: u32, body: Seq<char>)
    ensures
        labelled(make_chunk(relative, language, s, e, body), relative, language),
{
    let h = chunk_header(relative, language);
    assert((h + body).take(h.len() as int) =~= h);
}

/// Whatever way a file is chunked, each chunk is labelled with the file's
/// path and language.
pub proof fn lemma_file_chunks_labelled(relative: Seq<char>, language: Seq<char>, content: Seq<char>)
    ensures
        forall|k: int|
            0 <= k < file_chunks(relative, language, content).len() ==> labelled(
                #[trigger] file_chunks(relative, language, content)[k],
                relative,
                language,
            ),
{
    match grammar_chunks(relative, language, content) {
        Some(cs) => {
            crate::tschunk::lemma_node_chunks_labelled(relative, language, content);
        },
        None => {
            let lines = lines_of(content);
            assert forall|k: int| 0 <= k < line_chunks(relative, language, content).len() implies labelled(
                #[trigger] line_chunks(relative, language, content)[k], relative, language) by {
                let s = window_start(k);
                let e = window_end(lines.len() as int, k);
                lemma_make_chunk_labelled(relative, language, (s + 1) as u32, e as u32, join_lines(lines.subrange(s, e)));
            }
        },
    }
}

/// The chunks of a file: the grammar-based ones when there are any, else
/// the line windows.
pub open spec fn file_chunks(relative: Seq<char>, language: Seq<char>, content: Seq<char>) -> Seq<ChunkView> {
    match grammar_chunks(relative, language, content) {
        Some(cs) => cs,
        None => line_chunks(relative, language, content),
    }
}

/// Chunk a file: boundary-aware via tree-sitter when a grammar is wired for
/// the language, else line windows. Each chunk is prefixed with its file
/// path so the embedding has a little locating context.
pub fn chunk_file(relative: &str, language: &str, content: &str) -> (r: Vec<Chunk>)
    requires
        lines_of(content@).len() <= u32::MAX,
    ensures
        chunks_view(r@) == file_chunks(relative@, language@, content@),
        hashes_well_formed(r@),
{
    if let Some(chunks) = chunk_with_grammar(relative, language, content) {
        return chunks;
    }
    chunk_lines(relative, language, content)
}

} // verus!
