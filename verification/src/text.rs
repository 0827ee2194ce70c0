//! Character-level helpers: splitting text into lines and joining them back.

use vstd::prelude::*;

verus! {

broadcast use vstd::string::group_string_axioms;

/// A line with its terminator removed: a trailing carriage return goes too.
pub open spec fn strip_cr(line: Seq<char>) -> Seq<char> {
    if line.len() > 0 && line.last() == '\r' {
        line.drop_last()
    } else {
        line
    }
}

/// The lines of a text as `str::lines` yields them: split at each `'\n'`, a
/// `'\r'` right before a `'\n'` dropped, and no empty line after a final `'\n'`.
pub open spec fn lines_of(s: Seq<char>) -> Seq<Seq<char>>
    decreases s.len(),
{
    if s.len() == 0 {
        seq![]
    } else {
        match s.index_of_first('\n') {
            None => seq![s],
            Some(i) => {
                if 0 <= i < s.len() {
                    seq![strip_cr(s.take(i))] + lines_of(s.skip(i + 1))
                } else {
                    seq![]
                }
            },
        }
    }
}

/// Lines joined with `'\n'` between consecutive ones.
pub open spec fn join_lines(lines: Seq<Seq<char>>) -> Seq<char>
    decreases lines.len(),
{
    if lines.len() == 0 {
        seq![]
    } else if lines.len() == 1 {
        lines[0]
    } else {
        join_lines(lines.drop_last()) + seq!['\n'] + lines.last()
    }
}

/// Whether two string slices hold the same characters.
pub fn str_eq(a: &str, b: &str) -> (r: bool)
    ensures
        r == (a@ == b@),
{
    a.to_owned() == b.to_owned()
}

/// Whether a character is white space: the characters that Unicode gives
/// the `White_Space` property, the set that `char::is_whitespace` tests.
pub open spec fn is_white_space(c: char) -> bool {
    ||| '\u{9}' <= c <= '\u{d}'
    ||| c == ' '
    ||| c == '\u{85}'
    ||| c == '\u{a0}'
    ||| c == '\u{1680}'
    ||| '\u{2000}' <= c <= '\u{200a}'
    ||| c == '\u{2028}'
    ||| c == '\u{2029}'
    ||| c == '\u{202f}'
    ||| c == '\u{205f}'
    ||| c == '\u{3000}'
}

/// Whether a character is white space.
pub fn char_is_whitespace(c: char) -> (r: bool)
    ensures
        r == is_white_space(c),
{
    ('\u{9}' <= c && c <= '\u{d}') || c == ' ' || c == '\u{85}' || c == '\u{a0}' || c == '\u{1680}'
        || ('\u{2000}' <= c && c <= '\u{200a}') || c == '\u{2028}' || c == '\u{2029}' || c == '\u{202f}'
        || c == '\u{205f}' || c == '\u{3000}'
}

/// A text made of white space only (the empty text included).
pub open spec fn is_blank(s: Seq<char>) -> bool {
    forall|i: int| 0 <= i < s.len() ==> is_white_space(#[trigger] s[i])
}

/// Whether a string slice is blank: `s.trim().is_empty()`, since `trim`
/// removes exactly the leading and trailing white space.
pub fn str_is_blank(s: &str) -> (r: bool)
    ensures
        r == is_blank(s@),
{
    let cs = chars_of(s);
    let mut i: usize = 0;
    while i < cs.len()
        invariant
            cs@ == s@,
            i <= cs.len(),
            forall|j: int| 0 <= j < i ==> is_white_space(#[trigger] cs@[j]),
        decreases cs.len() - i,
    {
        if !char_is_whitespace(cs[i]) {
            return false;
        }
        i = i + 1;
    }
    true
}

/// Appends one character to a `String`.
///
/// Calls `String::push`, which std documents as appending the given `char`
/// to the end of the string.
#[verifier::external_body]
pub(crate) fn push_char(s: &mut String, c: char)
    ensures
        final(s)@ == old(s)@.push(c),
{
    s.push(c);
}

/// The characters of a string slice, in order.
pub fn chars_of(s: &str) -> (r: Vec<char>)
    ensures
        r@ == s@,
{
    let mut r: Vec<char> = Vec::new();
    for c in it: s.chars()
        invariant
            it.seq() == s@,
            r@ == s@.take(it.index() as int),
    {
        r.push(c);
    }
    assert(r@ =~= s@);
    r
}

/// At the first newline, `lines_of` yields the text before it and goes on after it.
proof fn lemma_lines_at_newline(s: Seq<char>, i: int)
    requires
        0 <= i < s.len(),
        s[i] == '\n',
        forall|j: int| 0 <= j < i ==> s[j] != '\n',
    ensures
        lines_of(s) == seq![strip_cr(s.take(i))] + lines_of(s.skip(i + 1)),
{
    s.index_of_first_ensures('\n');
    match s.index_of_first('\n') {
        Some(k) => {
            assert(k == i);
        },
        None => {
            assert(s.contains('\n'));
        },
    }
}

proof fn lemma_lines_no_newline(s: Seq<char>)
    requires
        s.len() > 0,
        forall|j: int| 0 <= j < s.len() ==> s[j] != '\n',
    ensures
        lines_of(s) == seq![s],
{
    s.index_of_first_ensures('\n');
}

/// A text has lines exactly when it is not empty.
pub proof fn lemma_lines_empty(s: Seq<char>)
    ensures
        (lines_of(s).len() == 0) == (s.len() == 0),
{
    if s.len() > 0 {
        s.index_of_first_ensures('\n');
    }
}

/// `bounds` locates the lines of `cs`: line `k` is `cs[b.0..b.1]` for the
/// `k`-th pair `b`.
pub open spec fn locates_lines(cs: Seq<char>, bounds: Seq<(usize, usize)>) -> bool {
    &&& bounds.len() == lines_of(cs).len()
    &&& forall|k: int|
        0 <= k < bounds.len() ==> {
            &&& (#[trigger] bounds[k]).0 <= bounds[k].1 <= cs.len()
            &&& cs.subrange(bounds[k].0 as int, bounds[k].1 as int) == lines_of(cs)[k]
        }
}

/// Where each line of `cs` starts and ends.
pub fn line_bounds(cs: &Vec<char>) -> (r: Vec<(usize, usize)>)
    ensures
        locates_lines(cs@, r@),
{
    let mut r: Vec<(usize, usize)> = Vec::new();
    let ghost mut done: Seq<Seq<char>> = seq![];
    let n = cs.len();
    let mut start: usize = 0;
    let mut i: usize = 0;
    assert(cs@.skip(0) =~= cs@);
    while i < n
        invariant
            n == cs.len(),
            start <= i <= n,
            forall|j: int| start <= j < i ==> cs@[j] != '\n',
            done + lines_of(cs@.skip(start as int)) == lines_of(cs@),
            r.len() == done.len(),
            forall|k: int|
                0 <= k < r.len() ==> {
                    &&& #[trigger] r[k].0 <= r[k].1 <= cs.len()
                    &&& cs@.subrange(r[k].0 as int, r[k].1 as int) == done[k]
                },
        decreases n - i,
    {
        if cs[i] == '\n' {
            let ghost t = cs@.skip(start as int);
            proof {
                lemma_lines_at_newline(t, i - start);
                assert(t.skip(i - start + 1) =~= cs@.skip(i + 1));
            }
            let end = if i > start && cs[i - 1] == '\r' { i - 1 } else { i };
            proof {
                assert(strip_cr(t.take(i - start)) =~= cs@.subrange(start as int, end as int));
                assert(done.push(strip_cr(t.take(i - start))) + lines_of(cs@.skip(i + 1))
                    =~= done + (seq![strip_cr(t.take(i - start))] + lines_of(cs@.skip(i + 1))));
                done = done.push(strip_cr(t.take(i - start)));
            }
            r.push((start, end));
            start = i + 1;
        }
        i = i + 1;
    }
    if start < n {
        let ghost t = cs@.skip(start as int);
        proof {
            lemma_lines_no_newline(t);
            assert(t =~= cs@.subrange(start as int, n as int));
            assert(done.push(t) =~= done + seq![t]);
            done = done.push(t);
        }
        r.push((start, n));
    } else {
        proof {
            assert(cs@.skip(start as int) =~= Seq::<char>::empty());
            assert(done + Seq::<Seq<char>>::empty() =~= done);
        }
    }
    proof {
        assert(done =~= lines_of(cs@));
        assert forall|k: int| 0 <= k < r@.len() implies {
            &&& (#[trigger] r@[k]).0 <= r@[k].1 <= cs@.len()
            &&& cs@.subrange(r@[k].0 as int, r@[k].1 as int) == lines_of(cs@)[k]
        } by {
            assert(r[k].0 <= r[k].1 <= cs.len());
        }
    }
    r
}

} // verus!
