//! The manifest: relative path -> content hash. It lets re-indexing skip
//! unchanged files.

use vstd::prelude::*;
use crate::digest::{hash_prefix_hex, is_hex_hash, short_hash};
use crate::text::str_eq;
use vstd::utf8::encode_utf8;

verus! {

broadcast use vstd::string::group_string_axioms;

/// The hash of a file's content: the first 16 bytes of the SHA-256 digest
/// of its UTF-8 bytes, in hex.
pub open spec fn content_hash(content: Seq<char>) -> Seq<char> {
    short_hash(encode_utf8(content), 16)
}

/// Hash of a file's content, as stored in the manifest: 32 lowercase hex
/// characters, the same for the same content.
pub fn file_hash(content: &str) -> (r: String)
    ensures
        r@ == content_hash(content@),
        is_hex_hash(r@, 16),
{
    hash_prefix_hex(content.as_bytes(), 16)
}

/// The map that a list of (path, hash) entries stands for.
pub open spec fn entries_map(entries: Seq<(String, String)>) -> Map<Seq<char>, Seq<char>>
    decreases entries.len(),
{
    if entries.len() == 0 {
        Map::empty()
    } else {
        entries_map(entries.drop_last()).insert(entries.last().0@, entries.last().1@)
    }
}

/// No path occurs twice.
pub open spec fn distinct_keys(entries: Seq<(String, String)>) -> bool {
    forall|i: int, j: int|
        0 <= i < entries.len() && 0 <= j < entries.len() && i != j ==> (#[trigger] entries[i]).0@ != (#[trigger] entries[j]).0@
}

/// Relative path -> content hash, each path once.
pub struct Manifest {
    entries: Vec<(String, String)>,
}

impl View for Manifest {
    type V = Map<Seq<char>, Seq<char>>;

    closed spec fn view(&self) -> Map<Seq<char>, Seq<char>> {
        entries_map(self.entries@)
    }
}

proof fn lemma_entries_map_dom(entries: Seq<(String, String)>, k: Seq<char>)
    ensures
        entries_map(entries).contains_key(k) <==> exists|i: int| 0 <= i < entries.len() && (#[trigger] entries[i]).0@ == k,
    decreases entries.len(),
{
    if entries.len() > 0 {
        lemma_entries_map_dom(entries.drop_last(), k);
        if entries_map(entries.drop_last()).contains_key(k) {
            let i = choose|i: int| 0 <= i < entries.drop_last().len() && (#[trigger] entries.drop_last()[i]).0@ == k;
            assert(entries[i] == entries.drop_last()[i]);
        }
        if exists|i: int| 0 <= i < entries.len() && (#[trigger] entries[i]).0@ == k {
            let i = choose|i: int| 0 <= i < entries.len() && (#[trigger] entries[i]).0@ == k;
            if i < entries.len() - 1 {
                assert(entries.drop_last()[i] == entries[i]);
            }
        }
    }
}

proof fn lemma_entries_map_at(entries: Seq<(String, String)>, i: int)
    requires
        distinct_keys(entries),
        0 <= i < entries.len(),
    ensures
        entries_map(entries).contains_key(entries[i].0@),
        entries_map(entries)[entries[i].0@] == entries[i].1@,
    decreases entries.len(),
{
    if i < entries.len() - 1 {
        assert(entries.drop_last()[i] == entries[i]);
        assert(distinct_keys(entries.drop_last())) by {
            assert forall|a: int, b: int|
                0 <= a < entries.drop_last().len() && 0 <= b < entries.drop_last().len() && a != b
                implies (#[trigger] entries.drop_last()[a]).0@ != (#[trigger] entries.drop_last()[b]).0@ by {
                assert(entries.drop_last()[a] == entries[a]);
                assert(entries.drop_last()[b] == entries[b]);
            }
        }
        lemma_entries_map_at(entries.drop_last(), i);
        assert(entries[entries.len() - 1].0@ != entries[i].0@);
    }
}

proof fn lemma_entries_map_update(entries: Seq<(String, String)>, i: int, v: String)
    requires
        distinct_keys(entries),
        0 <= i < entries.len(),
    ensures
        entries_map(entries.update(i, (entries[i].0, v))) == entries_map(entries).insert(entries[i].0@, v@),
    decreases entries.len(),
{
    let u = entries.update(i, (entries[i].0, v));
    if i == entries.len() - 1 {
        assert(u.drop_last() =~= entries.drop_last());
        lemma_entries_map_dom(entries.drop_last(), entries[i].0@);
        assert(!entries_map(entries.drop_last()).contains_key(entries[i].0@)) by {
            if entries_map(entries.drop_last()).contains_key(entries[i].0@) {
                let j = choose|j: int| 0 <= j < entries.drop_last().len() && (#[trigger] entries.drop_last()[j]).0@ == entries[i].0@;
                assert(entries.drop_last()[j] == entries[j]);
            }
        }
        assert(entries_map(u) =~= entries_map(entries).insert(entries[i].0@, v@));
    } else {
        assert(u.drop_last() =~= entries.drop_last().update(i, (entries[i].0, v)));
        assert(distinct_keys(entries.drop_last())) by {
            assert forall|a: int, b: int|
                0 <= a < entries.drop_last().len() && 0 <= b < entries.drop_last().len() && a != b
                implies (#[trigger] entries.drop_last()[a]).0@ != (#[trigger] entries.drop_last()[b]).0@ by {
                assert(entries.drop_last()[a] == entries[a]);
                assert(entries.drop_last()[b] == entries[b]);
            }
        }
        assert(entries.drop_last()[i] == entries[i]);
        lemma_entries_map_update(entries.drop_last(), i, v);
        assert(entries[entries.len() - 1].0@ != entries[i].0@);
        assert(entries_map(u) =~= entries_map(entries).insert(entries[i].0@, v@));
    }
}

impl Manifest {
    #[verifier::type_invariant]
    spec fn keys_distinct(self) -> bool {
        distinct_keys(self.entries@)
    }

    /// The paths in the order they were first inserted.
    pub closed spec fn key_order(&self) -> Seq<Seq<char>> {
        self.entries@.map_values(|e: (String, String)| e.0@)
    }

    /// An empty manifest.
    pub fn new() -> (r: Self)
        ensures
            r@ == Map::<Seq<char>, Seq<char>>::empty(),
            r.key_order() == Seq::<Seq<char>>::empty(),
    {
        let r = Manifest { entries: Vec::new() };
        assert(r.key_order() =~= Seq::<Seq<char>>::empty());
        r
    }

    /// The number of paths.
    pub fn len(&self) -> (r: usize)
        ensures
            r == self@.len(),
            r == self.key_order().len(),
    {
        proof {
            use_type_invariant(self);
            self.lemma_key_order_rec();
        }
        self.entries.len()
    }

    /// Whether the manifest has no path.
    pub fn is_empty(&self) -> (r: bool)
        ensures
            r == (self@.len() == 0),
    {
        self.len() == 0
    }

    proof fn lemma_key_order_rec(&self)
        requires
            distinct_keys(self.entries@),
        ensures
            self.key_order().len() == self@.len(),
            self.key_order().to_set() == self@.dom(),
            self.key_order().no_duplicates(),
            self@.dom().finite(),
    {
        let ks = self.key_order();
        assert(ks.no_duplicates()) by {
            assert forall|i: int, j: int| 0 <= i < ks.len() && 0 <= j < ks.len() && i != j implies ks[i] != ks[j] by {
                assert(self.entries@[i] == self.entries@[i]);
            }
        }
        assert forall|k: Seq<char>| #[trigger] ks.to_set().contains(k) <==> self@.dom().contains(k) by {
            lemma_entries_map_dom(self.entries@, k);
            if ks.contains(k) {
                let i = choose|i: int| 0 <= i < ks.len() && ks[i] == k;
                assert(self.entries@[i].0@ == k);
            }
            if exists|i: int| 0 <= i < self.entries@.len() && (#[trigger] self.entries@[i]).0@ == k {
                let i = choose|i: int| 0 <= i < self.entries@.len() && (#[trigger] self.entries@[i]).0@ == k;
                assert(ks[i] == k);
            }
        }
        assert(ks.to_set() =~= self@.dom());
        ks.unique_seq_to_set();
        vstd::seq_lib::seq_to_set_is_finite(ks);
    }

    /// Where `key` stands among the entries.
    fn find(&self, key: &str) -> (r: Option<usize>)
        ensures
            match r {
                Some(i) => i < self.entries.len() && self.entries@[i as int].0@ == key@,
                None => forall|i: int| 0 <= i < self.entries.len() ==> (#[trigger] self.entries@[i]).0@ != key@,
            },
    {
        let mut i: usize = 0;
        while i < self.entries.len()
            invariant
                i <= self.entries.len(),
                forall|j: int| 0 <= j < i ==> (#[trigger] self.entries@[j]).0@ != key@,
            decreases self.entries.len() - i,
        {
            if str_eq(self.entries[i].0.as_str(), key) {
                return Some(i);
            }
            i = i + 1;
        }
        None
    }

    /// The hash recorded for `key`.
    pub fn get(&self, key: &str) -> (r: Option<&String>)
        ensures
            r.is_some() == self@.contains_key(key@),
            r.is_some() ==> r.unwrap()@ == self@[key@],
    {
        proof {
            use_type_invariant(self);
            lemma_entries_map_dom(self.entries@, key@);
        }
        match self.find(key) {
            Some(i) => {
                proof {
                    lemma_entries_map_at(self.entries@, i as int);
                }
                Some(&self.entries[i].1)
            },
            None => None,
        }
    }

    /// Records `value` for `key`, replacing what was there; a new path goes
    /// last in the order.
    pub fn insert(&mut self, key: String, value: String)
        ensures
            final(self)@ == old(self)@.insert(key@, value@),
            old(self)@.contains_key(key@) ==> final(self).key_order() == old(self).key_order(),
            !old(self)@.contains_key(key@) ==> final(self).key_order() == old(self).key_order().push(key@),
    {
        proof {
            use_type_invariant(&*self);
            lemma_entries_map_dom(self.entries@, key@);
        }
        match self.find(key.as_str()) {
            Some(i) => {
                let ghost before = self.entries@;
                let k = self.entries[i].0.clone();
                proof {
                    lemma_entries_map_update(before, i as int, value);
                }
                let mut entries: Vec<(String, String)> = Vec::new();
                std::mem::swap(&mut entries, &mut self.entries);
                entries.set(i, (k, value));
                assert(entries@ == before.update(i as int, (before[i as int].0, value)));
                assert(distinct_keys(entries@)) by {
                    assert forall|a: int, b: int|
                        0 <= a < entries@.len() && 0 <= b < entries@.len() && a != b
                        implies (#[trigger] entries@[a]).0@ != (#[trigger] entries@[b]).0@ by {
                        assert(before[a].0@ == entries@[a].0@);
                        assert(before[b].0@ == entries@[b].0@);
                    }
                }
                self.entries = entries;
                assert(self.key_order() =~= old(self).key_order()) by {
                    assert forall|a: int| 0 <= a < self.entries@.len() implies self.entries@[a].0@ == before[a].0@ by {}
                }
            },
            None => {
                let ghost before = self.entries@;
                let mut entries: Vec<(String, String)> = Vec::new();
                std::mem::swap(&mut entries, &mut self.entries);
                entries.push((key, value));
                assert(entries@.drop_last() =~= before);
                assert(distinct_keys(entries@)) by {
                    assert forall|a: int, b: int|
                        0 <= a < entries@.len() && 0 <= b < entries@.len() && a != b
                        implies (#[trigger] entries@[a]).0@ != (#[trigger] entries@[b]).0@ by {
                        if a < before.len() {
                            assert(entries@[a] == before[a]);
                        }
                        if b < before.len() {
                            assert(entries@[b] == before[b]);
                        }
                    }
                }
                self.entries = entries;
                assert(self.key_order() =~= old(self).key_order().push(key@));
            },
        }
    }

    /// The paths, in order, each with its hash.
    pub fn entries(&self) -> (r: &Vec<(String, String)>)
        ensures
            self.key_order().to_set() == self@.dom(),
            self.key_order().no_duplicates(),
            r@.map_values(|e: (String, String)| e.0@) == self.key_order(),
            forall|i: int| 0 <= i < r.len() ==> self@.contains_key(r@[i].0@) && self@[r@[i].0@] == (#[trigger] r@[i]).1@,
    {
        proof {
            use_type_invariant(self);
            self.lemma_key_order_rec();
            assert forall|i: int| 0 <= i < self.entries.len()
                implies self@.contains_key(self.entries@[i].0@) && self@[self.entries@[i].0@] == (#[trigger] self.entries@[i]).1@ by {
                lemma_entries_map_at(self.entries@, i);
            }
        }
        &self.entries
    }
}

} // verus!
