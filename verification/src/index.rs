//! Planning an index update: which files changed since the last manifest,
//! which disappeared, what to chunk, what to delete, and how chunks pair
//! with their embeddings.

use vstd::prelude::*;
use crate::chunk::{Chunk, ChunkView, chunk_file, chunks_view, file_chunks};
use crate::manifest::{Manifest, content_hash};
use crate::text::{chars_of, line_bounds, lines_of, locates_lines, push_char, str_eq};
use crate::walk::FileEntry;

verus! {

broadcast use vstd::string::group_string_axioms;

/// A file found by the walk, read and hashed.
pub struct SourceFile {
    pub entry: FileEntry,
    pub content: String,
    pub hash: String,
}

/// The relative path of a file.
pub open spec fn rel(f: SourceFile) -> Seq<char> {
    f.entry.relative@
}

/// The relative paths of the files, in order.
pub open spec fn paths(files: Seq<SourceFile>) -> Seq<Seq<char>> {
    files.map_values(|f: SourceFile| rel(f))
}

/// A file must be chunked again unless the manifest records its path with
/// the same hash.
pub open spec fn is_changed(prev: Map<Seq<char>, Seq<char>>, f: SourceFile) -> bool {
    !(prev.contains_key(rel(f)) && prev[rel(f)] == f.hash@)
}

/// The positions of the changed files, in order.
pub open spec fn changed_indices(files: Seq<SourceFile>, prev: Map<Seq<char>, Seq<char>>) -> Seq<usize>
    decreases files.len(),
{
    if files.len() == 0 {
        seq![]
    } else {
        let rest = changed_indices(files.drop_last(), prev);
        if is_changed(prev, files.last()) {
            rest.push((files.len() - 1) as usize)
        } else {
            rest
        }
    }
}

/// The paths of `order` that no current file has, in order.
pub open spec fn removed_paths(order: Seq<Seq<char>>, current: Seq<Seq<char>>) -> Seq<Seq<char>>
    decreases order.len(),
{
    if order.len() == 0 {
        seq![]
    } else {
        let rest = removed_paths(order.drop_last(), current);
        if current.contains(order.last()) {
            rest
        } else {
            rest.push(order.last())
        }
    }
}

/// The manifest of a set of files: each path mapped to its hash, a later
/// file winning over an earlier one with the same path.
pub open spec fn files_map(files: Seq<SourceFile>) -> Map<Seq<char>, Seq<char>>
    decreases files.len(),
{
    if files.len() == 0 {
        Map::empty()
    } else {
        files_map(files.drop_last()).insert(rel(files.last()), files.last().hash@)
    }
}

/// What an index update has to do.
pub struct IndexPlan {
    /// Positions of the files to chunk and embed again.
    pub changed: Vec<usize>,
    /// Paths in the manifest that no file has any more.
    pub removed: Vec<String>,
}

/// The strings' character sequences.
pub open spec fn strs(v: Seq<String>) -> Seq<Seq<char>> {
    v.map_values(|s: String| s@)
}

/// The removed paths are exactly the paths of `order` that no current file
/// has, each as often as in `order`.
pub proof fn lemma_removed_paths(order: Seq<Seq<char>>, current: Seq<Seq<char>>)
    ensures
        forall|p: Seq<char>|
            #[trigger] removed_paths(order, current).contains(p) <==> (order.contains(p) && !current.contains(p)),
        order.no_duplicates() ==> removed_paths(order, current).no_duplicates(),
    decreases order.len(),
{
    if order.len() > 0 {
        let d = order.drop_last();
        lemma_removed_paths(d, current);
        let rest = removed_paths(d, current);
        let r = removed_paths(order, current);
        if current.contains(order.last()) {
            assert(r == rest);
        } else {
            assert(r == rest.push(order.last()));
        }
        assert forall|p: Seq<char>| #[trigger] r.contains(p) <==> (order.contains(p) && !current.contains(p)) by {
            if r.contains(p) {
                let i = choose|i: int| 0 <= i < r.len() && r[i] == p;
                if i < rest.len() {
                    assert(rest[i] == p);
                    assert(rest.contains(p));
                    let j = choose|j: int| 0 <= j < d.len() && d[j] == p;
                    assert(order[j] == p);
                } else {
                    assert(order[order.len() - 1] == p);
                }
            }
            if order.contains(p) && !current.contains(p) {
                let j = choose|j: int| 0 <= j < order.len() && order[j] == p;
                if j < d.len() {
                    assert(d[j] == p);
                    assert(d.contains(p));
                    assert(removed_paths(d, current).contains(p));
                    let i = choose|i: int| 0 <= i < rest.len() && rest[i] == p;
                    assert(r[i] == rest[i]);
                    assert(r.contains(p));
                } else {
                    assert(r[r.len() - 1] == p);
                }
            }
        }
        if order.no_duplicates() {
            assert(d.no_duplicates()) by {
                assert forall|a: int, b: int| 0 <= a < d.len() && 0 <= b < d.len() && a != b implies d[a] != d[b] by {
                    assert(d[a] == order[a] && d[b] == order[b]);
                }
            }
            if !current.contains(order.last()) {
                assert(!d.contains(order.last())) by {
                    if d.contains(order.last()) {
                        let j = choose|j: int| 0 <= j < d.len() && d[j] == order.last();
                        assert(order[j] == order[order.len() - 1]);
                    }
                }
                assert(!rest.contains(order.last()));
                assert forall|a: int, b: int| 0 <= a < r.len() && 0 <= b < r.len() && a != b implies r[a] != r[b] by {
                    if a < rest.len() && b < rest.len() {
                        assert(r[a] == rest[a] && r[b] == rest[b]);
                    } else if a < rest.len() {
                        assert(r[a] == rest[a]);
                        assert(rest.contains(rest[a]));
                    } else if b < rest.len() {
                        assert(r[b] == rest[b]);
                        assert(rest.contains(rest[b]));
                    }
                }
            }
        }
    }
}

/// The changed positions are increasing, inside the list, and are exactly
/// the files whose path the manifest does not map to their hash.
pub proof fn lemma_changed_indices(files: Seq<SourceFile>, prev: Map<Seq<char>, Seq<char>>)
    requires
        files.len() <= usize::MAX,
    ensures
        forall|k: int| 0 <= k < changed_indices(files, prev).len() ==> (#[trigger] changed_indices(files, prev)[k]) < files.len(),
        forall|a: int, b: int|
            0 <= a < b < changed_indices(files, prev).len() ==> (#[trigger] changed_indices(files, prev)[a]) < (#[trigger] changed_indices(files, prev)[b]),
        forall|i: int|
            0 <= i < files.len() ==> (changed_indices(files, prev).contains(i as usize) <==> !(prev.contains_key(
                (#[trigger] files[i]).entry.relative@,
            ) && prev[files[i].entry.relative@] == files[i].hash@)),
    decreases files.len(),
{
    if files.len() > 0 {
        let d = files.drop_last();
        lemma_changed_indices(d, prev);
        let rest = changed_indices(d, prev);
        let c = changed_indices(files, prev);
        let n = files.len() - 1;
        assert forall|k: int| 0 <= k < c.len() implies (#[trigger] c[k]) < files.len() by {
            if k < rest.len() {
                assert(c[k] == rest[k]);
            }
        }
        assert forall|a: int, b: int| 0 <= a < b < c.len() implies (#[trigger] c[a]) < (#[trigger] c[b]) by {
            assert(c[a] == rest[a]);
            if b < rest.len() {
                assert(c[b] == rest[b]);
            }
        }
        assert forall|i: int| 0 <= i < files.len() implies (c.contains(i as usize) <==> !(prev.contains_key(
            (#[trigger] files[i]).entry.relative@) && prev[files[i].entry.relative@] == files[i].hash@)) by {
            if i < n {
                assert(d[i] == files[i]);
                if rest.contains(i as usize) {
                    let k = choose|k: int| 0 <= k < rest.len() && rest[k] == i as usize;
                    assert(c[k] == i as usize);
                }
                if c.contains(i as usize) {
                    let k = choose|k: int| 0 <= k < c.len() && c[k] == i as usize;
                    if k < rest.len() {
                        assert(rest[k] == i as usize);
                    }
                }
            } else {
                if c.contains(i as usize) {
                    let k = choose|k: int| 0 <= k < c.len() && c[k] == i as usize;
                    if k < rest.len() {
                        assert(rest[k] < d.len());
                    }
                }
                if is_changed(prev, files.last()) {
                    assert(c[c.len() - 1] == i as usize);
                }
            }
        }
    }
}

/// Diff the current files against the previous manifest.
pub fn plan_index(files: &Vec<SourceFile>, prev: &Manifest) -> (r: IndexPlan)
    ensures
        r.changed@ == changed_indices(files@, prev@),
        strs(r.removed@) == removed_paths(prev.key_order(), paths(files@)),
        forall|i: int|
            0 <= i < files.len() ==> (r.changed@.contains(i as usize) <==> !(prev@.contains_key(
                (#[trigger] files@[i]).entry.relative@,
            ) && prev@[files@[i].entry.relative@] == files@[i].hash@)),
        forall|a: int, b: int| 0 <= a < b < r.changed.len() ==> (#[trigger] r.changed@[a]) < (#[trigger] r.changed@[b]),
        forall|k: int| 0 <= k < r.changed.len() ==> (#[trigger] r.changed@[k]) < files.len(),
        forall|p: Seq<char>|
            #[trigger] strs(r.removed@).contains(p) <==> (prev@.contains_key(p) && !paths(files@).contains(p)),
        strs(r.removed@).no_duplicates(),
{
    let mut changed: Vec<usize> = Vec::new();
    let mut i: usize = 0;
    while i < files.len()
        invariant
            i <= files.len(),
            changed@ == changed_indices(files@.take(i as int), prev@),
        decreases files.len() - i,
    {
        let f = &files[i];
        let same = match prev.get(f.entry.relative.as_str()) {
            Some(h) => str_eq(h.as_str(), f.hash.as_str()),
            None => false,
        };
        assert(files@.take(i + 1).drop_last() =~= files@.take(i as int));
        assert(files@.take(i + 1).last() == files@[i as int]);
        if !same {
            changed.push(i);
        }
        i = i + 1;
    }
    assert(files@.take(files.len() as int) =~= files@);
    let entries = prev.entries();
    let mut removed: Vec<String> = Vec::new();
    let ghost order = prev.key_order();
    let mut j: usize = 0;
    while j < entries.len()
        invariant
            j <= entries.len(),
            entries@.map_values(|e: (String, String)| e.0@) == order,
            strs(removed@) == removed_paths(order.take(j as int), paths(files@)),
        decreases entries.len() - j,
    {
        let key = &entries[j].0;
        let present = contains_path(files, key.as_str());
        assert(order.take(j + 1).drop_last() =~= order.take(j as int));
        assert(order.take(j + 1).last() == key@);
        if !present {
            removed.push(key.clone());
            assert(strs(removed@) =~= strs(removed@.drop_last()).push(key@));
        }
        j = j + 1;
    }
    assert(order.take(entries.len() as int) =~= order);
    proof {
        lemma_changed_indices(files@, prev@);
        lemma_removed_paths(order, paths(files@));
        assert forall|p: Seq<char>| order.contains(p) <==> prev@.contains_key(p) by {
            assert(order.to_set().contains(p) == order.contains(p));
        }
    }
    IndexPlan { changed, removed }
}

/// Whether some file has the path `key`.
fn contains_path(files: &Vec<SourceFile>, key: &str) -> (r: bool)
    ensures
        r == paths(files@).contains(key@),
{
    let mut i: usize = 0;
    while i < files.len()
        invariant
            i <= files.len(),
            forall|j: int| 0 <= j < i ==> rel(#[trigger] files@[j]) != key@,
        decreases files.len() - i,
    {
        if str_eq(files[i].entry.relative.as_str(), key) {
            assert(paths(files@)[i as int] == key@);
            return true;
        }
        i = i + 1;
    }
    assert forall|j: int| 0 <= j < paths(files@).len() implies paths(files@)[j] != key@ by {
        assert(paths(files@)[j] == rel(files@[j]));
    }
    false
}

impl IndexPlan {
    /// Nothing to do: no file changed, none was removed, and the index
    /// table already exists.
    pub fn up_to_date(&self, has_table: bool) -> (r: bool)
        ensures
            r == (self.changed.len() == 0 && self.removed.len() == 0 && has_table),
    {
        self.changed.len() == 0 && self.removed.len() == 0 && has_table
    }
}

/// The manifest to save after an update: every current path with its hash.
pub fn manifest_of(files: &Vec<SourceFile>) -> (r: Manifest)
    ensures
        r@ == files_map(files@),
        paths(files@).no_duplicates() ==> r.key_order() == paths(files@),
{
    let mut m = Manifest::new();
    let mut i: usize = 0;
    while i < files.len()
        invariant
            i <= files.len(),
            m@ == files_map(files@.take(i as int)),
            paths(files@).no_duplicates() ==> m.key_order() == paths(files@.take(i as int)),
        decreases files.len() - i,
    {
        let f = &files[i];
        let ghost before = m;
        m.insert(f.entry.relative.clone(), f.hash.clone());
        assert(files@.take(i + 1).drop_last() =~= files@.take(i as int));
        assert(files@.take(i + 1).last() == files@[i as int]);
        proof {
            if paths(files@).no_duplicates() {
                assert(paths(files@.take(i as int)) =~= paths(files@).take(i as int));
                assert(!before@.contains_key(rel(files@[i as int]))) by {
                    if before@.contains_key(rel(files@[i as int])) {
                        lemma_files_map_dom(files@.take(i as int), rel(files@[i as int]));
                        let j = choose|j: int| 0 <= j < i && rel(#[trigger] files@.take(i as int)[j]) == rel(files@[i as int]);
                        assert(paths(files@)[j] == paths(files@)[i as int]);
                    }
                }
                assert(paths(files@.take(i + 1)) =~= paths(files@.take(i as int)).push(rel(files@[i as int])));
            }
        }
        i = i + 1;
    }
    assert(files@.take(files.len() as int) =~= files@);
    m
}

/// The chunks of the files at `idx`, file after file.
pub open spec fn chunks_of_files(files: Seq<SourceFile>, idx: Seq<usize>) -> Seq<ChunkView>
    decreases idx.len(),
{
    if idx.len() == 0 {
        seq![]
    } else {
        let f = files[idx.last() as int];
        chunks_of_files(files, idx.drop_last()) + file_chunks(rel(f), f.entry.language@, f.content@)
    }
}

/// Chunking one changed file gives exactly that file's chunks, as
/// `chunk_file` makes them.
pub proof fn lemma_chunks_of_one_file(files: Seq<SourceFile>, i: usize)
    ensures
        chunks_of_files(files, seq![i]) == file_chunks(
            files[i as int].entry.relative@,
            files[i as int].entry.language@,
            files[i as int].content@,
        ),
{
    let idx = seq![i];
    assert(idx.drop_last() =~= Seq::<usize>::empty());
    assert(idx.last() == i);
    assert(chunks_of_files(files, Seq::<usize>::empty()) == Seq::<ChunkView>::empty());
    assert(Seq::<ChunkView>::empty() + file_chunks(
        files[i as int].entry.relative@,
        files[i as int].entry.language@,
        files[i as int].content@,
    ) =~= file_chunks(files[i as int].entry.relative@, files[i as int].entry.language@, files[i as int].content@));
}

/// Chunking two runs of changed files one after the other gives the chunks
/// of the first run followed by those of the second: every file's chunks
/// appear whole and in order.
pub proof fn lemma_chunks_of_files_concat(files: Seq<SourceFile>, a: Seq<usize>, b: Seq<usize>)
    ensures
        chunks_of_files(files, a + b) == chunks_of_files(files, a) + chunks_of_files(files, b),
    decreases b.len(),
{
    if b.len() == 0 {
        assert(a + b =~= a);
        assert(chunks_of_files(files, a) + Seq::<ChunkView>::empty() =~= chunks_of_files(files, a));
    } else {
        lemma_chunks_of_files_concat(files, a, b.drop_last());
        assert((a + b).drop_last() =~= a + b.drop_last());
        assert((a + b).last() == b.last());
        let f = files[b.last() as int];
        let fc = file_chunks(rel(f), f.entry.language@, f.content@);
        assert(chunks_of_files(files, a) + chunks_of_files(files, b.drop_last()) + fc
            =~= chunks_of_files(files, a) + (chunks_of_files(files, b.drop_last()) + fc));
    }
}

/// `idx` picks files whose lines can be numbered with `u32`.
pub open spec fn chunkable(files: Seq<SourceFile>, idx: Seq<usize>) -> bool {
    forall|k: int|
        0 <= k < idx.len() ==> (#[trigger] idx[k]) < files.len() && lines_of(files[idx[k] as int].content@).len() <= u32::MAX
}

/// Chunk the files at `changed`, in order.
pub fn chunk_changed(files: &Vec<SourceFile>, changed: &Vec<usize>) -> (r: Vec<Chunk>)
    requires
        chunkable(files@, changed@),
    ensures
        chunks_view(r@) == chunks_of_files(files@, changed@),
{
    let mut chunks: Vec<Chunk> = Vec::new();
    let mut k: usize = 0;
    while k < changed.len()
        invariant
            k <= changed.len(),
            chunkable(files@, changed@),
            chunks_view(chunks@) == chunks_of_files(files@, changed@.take(k as int)),
        decreases changed.len() - k,
    {
        let i = changed[k];
        assert(i == changed@[k as int]);
        let f = &files[i];
        let mut more = chunk_file(f.entry.relative.as_str(), f.entry.language.as_str(), f.content.as_str());
        let ghost before = chunks@;
        let ghost added = more@;
        chunks.append(&mut more);
        assert(changed@.take(k + 1).drop_last() =~= changed@.take(k as int));
        assert(changed@.take(k + 1).last() == i);
        assert(chunks_view(chunks@) =~= chunks_view(before) + chunks_view(added));
        k = k + 1;
    }
    assert(changed@.take(changed.len() as int) =~= changed@);
    chunks
}

/// What the index loses before the fresh chunks go in: the rows of every
/// changed file, then those of every removed path.
pub open spec fn deletions(files: Seq<SourceFile>, changed: Seq<usize>, removed: Seq<Seq<char>>) -> Seq<Seq<char>> {
    changed.map_values(|i: usize| rel(files[i as int])) + removed
}

/// Paths whose rows are deleted from the index: changed files are replaced,
/// removed files dropped.
pub fn paths_to_delete(files: &Vec<SourceFile>, plan: &IndexPlan) -> (r: Vec<String>)
    requires
        forall|k: int| 0 <= k < plan.changed.len() ==> (#[trigger] plan.changed@[k]) < files.len(),
    ensures
        strs(r@) == deletions(files@, plan.changed@, strs(plan.removed@)),
{
    let mut r: Vec<String> = Vec::new();
    let mut k: usize = 0;
    while k < plan.changed.len()
        invariant
            k <= plan.changed.len(),
            forall|j: int| 0 <= j < plan.changed.len() ==> (#[trigger] plan.changed@[j]) < files.len(),
            strs(r@) == plan.changed@.take(k as int).map_values(|i: usize| rel(files@[i as int])),
        decreases plan.changed.len() - k,
    {
        let i = plan.changed[k];
        assert(i == plan.changed@[k as int]);
        let ghost before = r@;
        let p = files[i].entry.relative.clone();
        assert(p@ == rel(files@[i as int]));
        r.push(p);
        assert(strs(r@) =~= strs(before).push(rel(files@[i as int])));
        assert(plan.changed@.take(k + 1) =~= plan.changed@.take(k as int).push(i));
        assert(strs(r@) =~= plan.changed@.take(k + 1).map_values(|i: usize| rel(files@[i as int])));
        k = k + 1;
    }
    let mut j: usize = 0;
    let ghost head = strs(r@);
    while j < plan.removed.len()
        invariant
            j <= plan.removed.len(),
            strs(r@) == head + strs(plan.removed@).take(j as int),
        decreases plan.removed.len() - j,
    {
        let ghost before = r@;
        let p = plan.removed[j].clone();
        assert(p@ == strs(plan.removed@)[j as int]);
        r.push(p);
        assert(strs(r@) =~= strs(before).push(strs(plan.removed@)[j as int]));
        assert(strs(r@) =~= head + strs(plan.removed@).take(j + 1));
        j = j + 1;
    }
    assert(plan.changed@.take(plan.changed.len() as int) =~= plan.changed@);
    assert(strs(plan.removed@).take(plan.removed.len() as int) =~= strs(plan.removed@));
    r
}

/// Each chunk paired with its embedding; chunks whose embedding is missing
/// are dropped, the rest keep their order.
pub open spec fn paired<T>(cs: Seq<ChunkView>, vs: Seq<Option<T>>) -> Seq<(ChunkView, T)>
    decreases cs.len(),
{
    if cs.len() == 0 || vs.len() == 0 {
        seq![]
    } else {
        let rest = paired(cs.drop_last(), vs.drop_last());
        match vs.last() {
            Some(v) => rest.push((cs.last(), v)),
            None => rest,
        }
    }
}

/// Pairing keeps at most one record per chunk, and every chunk when every
/// embedding is present.
pub proof fn lemma_paired<T>(cs: Seq<ChunkView>, vs: Seq<Option<T>>)
    requires
        cs.len() == vs.len(),
    ensures
        paired(cs, vs).len() <= cs.len(),
        (forall|i: int| 0 <= i < vs.len() ==> (#[trigger] vs[i]) is Some) ==> paired(cs, vs).len() == cs.len()
            && forall|i: int| 0 <= i < cs.len() ==> #[trigger] paired(cs, vs)[i] == (cs[i], vs[i]->0),
    decreases cs.len(),
{
    if cs.len() > 0 {
        lemma_paired(cs.drop_last(), vs.drop_last());
        if forall|i: int| 0 <= i < vs.len() ==> (#[trigger] vs[i]) is Some {
            assert forall|i: int| 0 <= i < vs.drop_last().len() implies (#[trigger] vs.drop_last()[i]) is Some by {
                assert(vs.drop_last()[i] == vs[i]);
            }
            assert(vs[vs.len() - 1] is Some);
            let p = paired(cs, vs);
            let rest = paired(cs.drop_last(), vs.drop_last());
            assert forall|i: int| 0 <= i < cs.len() implies #[trigger] p[i] == (cs[i], vs[i]->0) by {
                if i < cs.len() - 1 {
                    assert(p[i] == rest[i]);
                    assert(cs.drop_last()[i] == cs[i]);
                    assert(vs.drop_last()[i] == vs[i]);
                }
            }
        }
    }
}

/// The views of chunk/embedding pairs.
pub open spec fn pairs_view<T>(ps: Seq<(Chunk, T)>) -> Seq<(ChunkView, T)> {
    ps.map_values(|p: (Chunk, T)| (p.0@, p.1))
}

/// Moves the elements of `v` into a new vector in reverse order.
fn reversed<A>(v: Vec<A>) -> (r: Vec<A>)
    ensures
        r@ == v@.reverse(),
{
    let ghost orig = v@;
    let mut v = v;
    let mut r: Vec<A> = Vec::new();
    while v.len() > 0
        invariant
            v@ == orig.take(v.len() as int),
            r@ == orig.subrange(v.len() as int, orig.len() as int).reverse(),
            v.len() <= orig.len(),
        decreases v.len(),
    {
        let ghost n = v.len();
        let x = v.pop().unwrap();
        r.push(x);
        assert(v@ =~= orig.take(n - 1));
        assert(r@ =~= orig.subrange(n - 1, orig.len() as int).reverse());
    }
    assert(orig.subrange(0, orig.len() as int) =~= orig);
    r
}

/// Pair chunks with their embeddings, dropping any that couldn't be
/// embedded. `None` when the counts differ, which the caller reports as an
/// embedding count mismatch.
pub fn pair_embeddings<T>(chunks: Vec<Chunk>, vectors: Vec<Option<T>>) -> (r: Option<Vec<(Chunk, T)>>)
    ensures
        r.is_some() == (chunks.len() == vectors.len()),
        r.is_some() ==> pairs_view(r.unwrap()@) == paired(chunks_view(chunks@), vectors@),
{
    if chunks.len() != vectors.len() {
        return None;
    }
    let ghost cs = chunks@;
    let ghost vs = vectors@;
    let n = chunks.len();
    let mut rc = reversed(chunks);
    let mut rv = reversed(vectors);
    let mut out: Vec<(Chunk, T)> = Vec::new();
    let mut k: usize = 0;
    while k < n
        invariant
            n == cs.len() == vs.len(),
            k <= n,
            rc@ == cs.subrange(k as int, n as int).reverse(),
            rv@ == vs.subrange(k as int, n as int).reverse(),
            pairs_view(out@) == paired(chunks_view(cs.take(k as int)), vs.take(k as int)),
        decreases n - k,
    {
        assert(rc@.len() == n - k);
        let c = rc.pop().unwrap();
        let v = rv.pop().unwrap();
        assert(c == cs[k as int]);
        assert(v == vs[k as int]);
        assert(rc@ =~= cs.subrange(k + 1, n as int).reverse());
        assert(rv@ =~= vs.subrange(k + 1, n as int).reverse());
        let ghost before = out@;
        assert(chunks_view(cs.take(k + 1)).drop_last() =~= chunks_view(cs.take(k as int)));
        assert(vs.take(k + 1).drop_last() =~= vs.take(k as int));
        match v {
            Some(x) => {
                out.push((c, x));
                assert(pairs_view(out@) =~= pairs_view(before).push((cs[k as int]@, x)));
            },
            None => {},
        }
        k = k + 1;
    }
    assert(cs.take(n as int) =~= cs);
    assert(vs.take(n as int) =~= vs);
    Some(out)
}

/// Lines joined with `sep` between consecutive ones.
pub open spec fn join_with(lines: Seq<Seq<char>>, sep: Seq<char>) -> Seq<char>
    decreases lines.len(),
{
    if lines.len() == 0 {
        seq![]
    } else if lines.len() == 1 {
        lines[0]
    } else {
        join_with(lines.drop_last(), sep) + sep + lines.last()
    }
}

/// How a search hit's text is shown: its first three lines, each after the
/// first on its own indented line.
pub open spec fn snippet_of(text: Seq<char>) -> Seq<char> {
    let ls = lines_of(text);
    join_with(ls.take(if ls.len() < 3 { ls.len() as int } else { 3 }), "\n    "@)
}

/// The first three lines of a hit's text, joined for display.
pub fn snippet(text: &str) -> (r: String)
    ensures
        r@ == snippet_of(text@),
{
    let cs = chars_of(text);
    let bounds = line_bounds(&cs);
    let ghost ls = lines_of(cs@);
    let count = if bounds.len() < 3 { bounds.len() } else { 3 };
    let mut r = String::new();
    let mut k: usize = 0;
    while k < count
        invariant
            k <= count <= bounds.len(),
            locates_lines(cs@, bounds@),
            ls == lines_of(cs@),
            r@ == join_with(ls.take(k as int), "\n    "@),
        decreases count - k,
    {
        let ghost before = r@;
        if k > 0 {
            r.append("\n    ");
        }
        let (b0, b1) = bounds[k];
        let ghost mid = r@;
        let mut j = b0;
        while j < b1
            invariant
                b0 <= j <= b1 <= cs.len(),
                r@ == mid + cs@.subrange(b0 as int, j as int),
            decreases b1 - j,
        {
            push_char(&mut r, cs[j]);
            assert((mid + cs@.subrange(b0 as int, j as int)).push(cs@[j as int])
                =~= mid + cs@.subrange(b0 as int, j + 1));
            j = j + 1;
        }
        assert(ls.take(k + 1).drop_last() =~= ls.take(k as int));
        assert(ls.take(k + 1).last() == ls[k as int]);
        if k == 0 {
            assert(ls.take(1).len() == 1);
            assert(before =~= Seq::<char>::empty());
        }
        k = k + 1;
    }
    r
}

proof fn lemma_files_map_dom(files: Seq<SourceFile>, k: Seq<char>)
    ensures
        files_map(files).contains_key(k) ==> exists|j: int| 0 <= j < files.len() && rel(#[trigger] files[j]) == k,
    decreases files.len(),
{
    if files.len() > 0 {
        lemma_files_map_dom(files.drop_last(), k);
        if files_map(files.drop_last()).contains_key(k) {
            let j = choose|j: int| 0 <= j < files.drop_last().len() && rel(#[trigger] files.drop_last()[j]) == k;
            assert(files[j] == files.drop_last()[j]);
        }
    }
}

/// Re-indexing files that have not changed since their manifest was
/// written finds nothing to do: no file changed and no path was removed
/// (paths taken to be distinct, as a walk gives them).
pub proof fn lemma_reindex_unchanged(files: Seq<SourceFile>)
    requires
        paths(files).no_duplicates(),
    ensures
        changed_indices(files, files_map(files)).len() == 0,
        removed_paths(paths(files), paths(files)).len() == 0,
{
    lemma_unchanged_prefix(files, files.len() as int);
    assert(files.take(files.len() as int) =~= files);
    lemma_removed_none(paths(files), paths(files));
}

proof fn lemma_unchanged_prefix(files: Seq<SourceFile>, n: int)
    requires
        paths(files).no_duplicates(),
        0 <= n <= files.len(),
    ensures
        changed_indices(files.take(n), files_map(files)).len() == 0,
    decreases n,
{
    if n > 0 {
        let t = files.take(n);
        assert(t.drop_last() =~= files.take(n - 1));
        lemma_unchanged_prefix(files, n - 1);
        lemma_files_map_at(files, n - 1);
        assert(t.last() == files[n - 1]);
    }
}

proof fn lemma_files_map_at(files: Seq<SourceFile>, i: int)
    requires
        paths(files).no_duplicates(),
        0 <= i < files.len(),
    ensures
        files_map(files).contains_key(rel(files[i])),
        files_map(files)[rel(files[i])] == files[i].hash@,
    decreases files.len(),
{
    if i < files.len() - 1 {
        let d = files.drop_last();
        assert(d[i] == files[i]);
        assert(paths(d).no_duplicates()) by {
            assert forall|a: int, b: int| 0 <= a < paths(d).len() && 0 <= b < paths(d).len() && a != b
                implies paths(d)[a] != paths(d)[b] by {
                assert(paths(d)[a] == paths(files)[a]);
                assert(paths(d)[b] == paths(files)[b]);
            }
        }
        lemma_files_map_at(d, i);
        assert(paths(files)[files.len() - 1] != paths(files)[i]);
    }
}

proof fn lemma_removed_none(order: Seq<Seq<char>>, current: Seq<Seq<char>>)
    requires
        forall|i: int| 0 <= i < order.len() ==> current.contains(#[trigger] order[i]),
    ensures
        removed_paths(order, current).len() == 0,
    decreases order.len(),
{
    if order.len() > 0 {
        assert(current.contains(order[order.len() - 1]));
        lemma_removed_none(order.drop_last(), current);
    }
}

} // verus!
