//! Preparing embedding requests: the endpoint, the input clamp, and the
//! batching plan with its per-text retry after a failed batch.

use vstd::prelude::*;
use crate::text::{chars_of, push_char};
use vstd::utf8::{encode_utf8, is_char_boundary, valid_utf8};

verus! {

broadcast use vstd::string::group_string_axioms, vstd::utf8::encode_utf8_valid_utf8;

/// Texts sent per embed request.
pub const BATCH: usize = 32;

/// Hard cap, in bytes, on one input: minified single-line files in
/// dependency trees can be huge, and the embed endpoint rejects over-long
/// inputs.
pub const MAX_INPUT_CHARS: usize = 8000;

/// The greatest character boundary of `bytes` that is not above `j`.
pub open spec fn boundary_at_or_below(bytes: Seq<u8>, j: int) -> int
    decreases j,
{
    if j <= 0 {
        0
    } else if is_char_boundary(bytes, j) {
        j
    } else {
        boundary_at_or_below(bytes, j - 1)
    }
}

/// The UTF-8 bytes of the clamped text: all of them when they fit in
/// `MAX_INPUT_CHARS`, else the longest prefix that fits and ends on a
/// character boundary.
pub open spec fn clamped_bytes(bytes: Seq<u8>) -> Seq<u8> {
    if bytes.len() <= MAX_INPUT_CHARS {
        bytes
    } else {
        bytes.take(boundary_at_or_below(bytes, MAX_INPUT_CHARS as int))
    }
}

proof fn lemma_boundary_at_or_below(bytes: Seq<u8>, j: int)
    requires
        valid_utf8(bytes),
        j <= bytes.len(),
    ensures
        0 <= boundary_at_or_below(bytes, j),
        boundary_at_or_below(bytes, j) <= j || j < 0,
        is_char_boundary(bytes, boundary_at_or_below(bytes, j)),
    decreases j,
{
    if j <= 0 {
    } else if !is_char_boundary(bytes, j) {
        lemma_boundary_at_or_below(bytes, j - 1);
    }
}

/// A clamped input is a prefix of the text's bytes, at most
/// `MAX_INPUT_CHARS` long, still valid UTF-8, and the whole text when that
/// fits.
pub proof fn lemma_clamp(bytes: Seq<u8>)
    requires
        valid_utf8(bytes),
    ensures
        clamped_bytes(bytes).len() <= MAX_INPUT_CHARS,
        clamped_bytes(bytes) == bytes.take(clamped_bytes(bytes).len() as int),
        valid_utf8(clamped_bytes(bytes)),
        bytes.len() <= MAX_INPUT_CHARS ==> clamped_bytes(bytes) == bytes,
{
    if bytes.len() <= MAX_INPUT_CHARS {
        assert(bytes.take(bytes.len() as int) =~= bytes);
    } else {
        let e = boundary_at_or_below(bytes, MAX_INPUT_CHARS as int);
        lemma_boundary_at_or_below(bytes, MAX_INPUT_CHARS as int);
        vstd::utf8::valid_utf8_split(bytes, e);
        assert(bytes.take(e) =~= bytes.subrange(0, e));
    }
}

/// Clamp on a char boundary at/under the byte cap.
pub fn clamp(text: &str) -> (r: String)
    ensures
        encode_utf8(r@) == clamped_bytes(encode_utf8(text@)),
{
    let ghost bytes = encode_utf8(text@);
    let len = text.as_bytes().len();
    if len <= MAX_INPUT_CHARS {
        return text.to_string();
    }
    let mut end = MAX_INPUT_CHARS;
    while end > 0 && !text.is_char_boundary(end)
        invariant
            end <= MAX_INPUT_CHARS < bytes.len(),
            bytes == encode_utf8(text@),
            boundary_at_or_below(bytes, end as int) == boundary_at_or_below(bytes, MAX_INPUT_CHARS as int),
        decreases end,
    {
        end = end - 1;
    }
    let (head, _) = text.split_at(end);
    assert(encode_utf8(head@) =~= bytes.take(end as int));
    head.to_string()
}

/// The clamped form of each text.
pub fn clamp_inputs(texts: &[String]) -> (r: Vec<String>)
    ensures
        r.len() == texts.len(),
        forall|i: int|
            0 <= i < r.len() ==> encode_utf8(#[trigger] r[i]@) == clamped_bytes(encode_utf8(texts[i]@)),
{
    let mut r: Vec<String> = Vec::new();
    let mut i: usize = 0;
    while i < texts.len()
        invariant
            i <= texts.len(),
            r.len() == i,
            forall|j: int| 0 <= j < i ==> encode_utf8(#[trigger] r[j]@) == clamped_bytes(encode_utf8(texts[j]@)),
        decreases texts.len() - i,
    {
        r.push(clamp(texts[i].as_str()));
        i = i + 1;
    }
    r
}

/// A text with its trailing `'/'` characters removed.
pub open spec fn trim_trailing_slashes(s: Seq<char>) -> Seq<char>
    decreases s.len(),
{
    if s.len() > 0 && s.last() == '/' {
        trim_trailing_slashes(s.drop_last())
    } else {
        s
    }
}

/// The embed endpoint under a server's base URL.
pub open spec fn embed_endpoint(base: Seq<char>) -> Seq<char> {
    trim_trailing_slashes(base) + "/api/embed"@
}

/// A base URL given with or without trailing slashes names the same
/// endpoint.
pub proof fn lemma_endpoint_ignores_trailing_slash(base: Seq<char>)
    ensures
        embed_endpoint(base.push('/')) == embed_endpoint(base),
{
    assert(base.push('/').drop_last() =~= base);
}

/// The URL of the embed endpoint: the base URL without trailing slashes,
/// then `/api/embed`.
pub fn embed_url(ollama_url: &str) -> (r: String)
    ensures
        r@ == embed_endpoint(ollama_url@),
{
    let cs = chars_of(ollama_url);
    let mut end = cs.len();
    assert(cs@.take(end as int) =~= cs@);
    while end > 0 && cs[end - 1] == '/'
        invariant
            cs@ == ollama_url@,
            end <= cs.len(),
            trim_trailing_slashes(cs@.take(end as int)) == trim_trailing_slashes(cs@),
        decreases end,
    {
        assert(cs@.take(end as int).drop_last() =~= cs@.take(end - 1));
        end = end - 1;
    }
    let mut r = String::new();
    let mut i: usize = 0;
    while i < end
        invariant
            cs@ == ollama_url@,
            i <= end <= cs.len(),
            r@ == cs@.take(i as int),
        decreases end - i,
    {
        push_char(&mut r, cs[i]);
        assert(cs@.take(i as int).push(cs@[i as int]) =~= cs@.take(i + 1));
        i = i + 1;
    }
    r.append("/api/embed");
    r
}

/// The next request to make while embedding a list of texts.
pub enum EmbedStep {
    /// Embed the texts `start..end` in one request.
    Batch { start: usize, end: usize },
    /// Embed the text at `index` on its own, after its batch failed.
    Single { index: usize },
    /// Every text has its entry.
    Finished,
}

/// Progress through a list of `total` texts, sent in batches of `BATCH`.
/// When a batch fails, or answers with a number of vectors other than its
/// number of texts, its texts are retried one by one; a text whose retry
/// fails gets `None`, so one bad text never aborts the rest, and the entries
/// always line up one to one with the texts.
pub struct EmbedProgress<V> {
    total: usize,
    next: usize,
    retry: Option<(usize, usize)>,
    out: Vec<Option<V>>,
}

impl<V> EmbedProgress<V> {
    /// The number of texts.
    pub closed spec fn total(&self) -> nat {
        self.total as nat
    }

    /// Where the next batch starts.
    pub closed spec fn next(&self) -> nat {
        self.next as nat
    }

    /// While a failed batch `..end` is retried text by text: the next text
    /// to retry and `end`.
    pub closed spec fn retry(&self) -> Option<(nat, nat)> {
        match self.retry {
            Some((i, e)) => Some((i as nat, e as nat)),
            None => None,
        }
    }

    /// The entries gathered so far.
    pub closed spec fn out(&self) -> Seq<Option<V>> {
        self.out@
    }

    /// The end of the batch that starts at `start`.
    pub open spec fn batch_end(&self, start: nat) -> nat {
        if start + BATCH < self.total() {
            (start + BATCH) as nat
        } else {
            self.total()
        }
    }

    /// Batches start at multiples of `BATCH` up to `total`; a retry runs
    /// inside the batch that starts at `next`; there is one entry per text
    /// settled so far.
    pub open spec fn wf(&self) -> bool {
        &&& self.aligned()
        &&& self.next() <= self.total()
        &&& self.next() % (BATCH as nat) == 0 || self.next() == self.total()
        &&& match self.retry() {
            Some((i, e)) => self.next() <= i < e && e == self.batch_end(self.next()),
            None => true,
        }
    }

    /// How many texts are settled: every text before the current position.
    pub open spec fn position(&self) -> nat {
        match self.retry() {
            Some((i, _)) => i,
            None => self.next(),
        }
    }

    /// The entries line up with the texts settled so far.
    pub open spec fn aligned(&self) -> bool {
        self.out().len() == self.position()
    }

    /// The request the plan asks for now.
    pub open spec fn spec_step(&self) -> EmbedStep {
        match self.retry() {
            Some((i, _)) => EmbedStep::Single { index: i as usize },
            None => if self.next() < self.total() {
                EmbedStep::Batch {
                    start: self.next() as usize,
                    end: self.batch_end(self.next()) as usize,
                }
            } else {
                EmbedStep::Finished
            },
        }
    }

    /// A plan for `total` texts, with nothing embedded yet.
    pub fn new(total: usize) -> (r: Self)
        ensures
            r.wf(),
            r.total() == total,
            r.next() == 0,
            r.retry() is None,
            r.out() == Seq::<Option<V>>::empty(),
    {
        EmbedProgress { total, next: 0, retry: None, out: Vec::new() }
    }

    /// The request to make now.
    pub fn step(&self) -> (r: EmbedStep)
        requires
            self.wf(),
        ensures
            r == self.spec_step(),
    {
        match self.retry {
            Some((i, _)) => EmbedStep::Single { index: i },
            None => if self.next < self.total {
                let end = if self.total - self.next > BATCH { self.next + BATCH } else { self.total };
                EmbedStep::Batch { start: self.next, end }
            } else {
                EmbedStep::Finished
            },
        }
    }

    /// The current batch came back with `vectors`. With one vector per text
    /// each becomes an entry, in order, and the plan moves to the next batch;
    /// with any other count the batch counts as failed and its texts are
    /// retried one by one.
    pub fn batch_succeeded(&mut self, vectors: Vec<V>)
        requires
            old(self).wf(),
            old(self).spec_step() is Batch,
        ensures
            final(self).wf(),
            final(self).total() == old(self).total(),
            vectors.len() == old(self).batch_end(old(self).next()) - old(self).next() ==> {
                &&& final(self).retry() is None
                &&& final(self).next() == old(self).batch_end(old(self).next())
                &&& final(self).out() == old(self).out() + vectors@.map_values(|v: V| Some(v))
            },
            vectors.len() != old(self).batch_end(old(self).next()) - old(self).next() ==> {
                &&& final(self).retry() == Some((old(self).next(), old(self).batch_end(old(self).next())))
                &&& final(self).next() == old(self).next()
                &&& final(self).out() == old(self).out()
            },
    {
        let end = if self.total - self.next > BATCH { self.next + BATCH } else { self.total };
        if vectors.len() != end - self.next {
            self.retry = Some((self.next, end));
            return;
        }
        let ghost before = self.out@;
        let mut vectors = vectors;
        let mut moved: Vec<Option<V>> = Vec::new();
        let ghost all = vectors@;
        let mut k: usize = 0;
        let n = vectors.len();
        while k < n
            invariant
                n == all.len(),
                k <= n,
                vectors@ == all.skip(k as int),
                moved@ == all.take(k as int).map_values(|v: V| Some(v)),
            decreases n - k,
        {
            let v = vectors.remove(0);
            moved.push(Some(v));
            assert(all.take(k + 1) =~= all.take(k as int).push(all[k as int]));
            assert(all.take(k as int).push(all[k as int]).map_values(|v: V| Some(v))
                =~= all.take(k as int).map_values(|v: V| Some(v)).push(Some(all[k as int])));
            assert(vectors@ =~= all.skip(k + 1));
            k = k + 1;
        }
        assert(all.take(n as int) =~= all);
        self.out.append(&mut moved);
        self.next = end;
        assert(self.out@ =~= before + all.map_values(|v: V| Some(v)));
        proof {
            assert(end % BATCH == 0 || end == self.total) by {
                assert(old(self).next % BATCH == 0);
            }
        }
    }

    /// The current batch failed: its texts are retried one by one.
    pub fn batch_failed(&mut self)
        requires
            old(self).wf(),
            old(self).spec_step() is Batch,
        ensures
            final(self).wf(),
            final(self).total() == old(self).total(),
            final(self).next() == old(self).next(),
            final(self).retry() == Some((old(self).next(), old(self).batch_end(old(self).next()))),
            final(self).out() == old(self).out(),
    {
        let end = if self.total - self.next > BATCH { self.next + BATCH } else { self.total };
        self.retry = Some((self.next, end));
    }

    /// The retried text came back with `vectors` (`None` when its request
    /// failed too): its entry is the last vector returned, or `None`.
    pub fn single_done(&mut self, vectors: Option<Vec<V>>)
        requires
            old(self).wf(),
            old(self).spec_step() is Single,
        ensures
            final(self).wf(),
            final(self).total() == old(self).total(),
            final(self).out() == old(self).out().push(match vectors {
                Some(v) => if v@.len() > 0 {
                    Some(v@.last())
                } else {
                    None
                },
                None => None,
            }),
            ({
                let (i, e) = old(self).retry().unwrap();
                if i + 1 < e {
                    final(self).retry() == Some((i + 1, e)) && final(self).next() == old(self).next()
                } else {
                    final(self).retry() is None && final(self).next() == e
                }
            }),
    {
        let entry = match vectors {
            Some(mut v) => v.pop(),
            None => None,
        };
        self.out.push(entry);
        match self.retry {
            Some((i, e)) => {
                if i + 1 < e {
                    self.retry = Some((i + 1, e));
                } else {
                    self.retry = None;
                    self.next = e;
                    assert(e % BATCH == 0 || e == self.total) by {
                        assert(old(self).next % BATCH == 0);
                    }
                }
            },
            None => {},
        }
    }

    /// The entries, one per text.
    pub fn finish(self) -> (r: Vec<Option<V>>)
        requires
            self.wf(),
            self.spec_step() is Finished,
        ensures
            r@ == self.out(),
            r.len() == self.total(),
    {
        self.out
    }
}

} // verus!
