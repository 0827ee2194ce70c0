//! Which files of a project get indexed, and under which language tag.

use vstd::prelude::*;
use crate::text::{chars_of, push_char, str_eq};

verus! {

broadcast use vstd::string::group_string_axioms;

/// `std::path::PathBuf`, carried through opaquely.
#[verifier::external_type_specification]
#[verifier::external_body]
pub struct ExPathBuf(std::path::PathBuf);

/// A file chosen for indexing.
pub struct FileEntry {
    pub path: std::path::PathBuf,
    pub relative: String,
    pub language: String,
}

/// Extra ignore filenames honored alongside `.gitignore`/`.ignore`, so a
/// repo can scope what gets indexed. Listed in increasing precedence; each
/// uses gitignore syntax.
pub fn custom_ignore_files() -> (r: Vec<&'static str>)
    ensures
        r@.len() == 5,
        r@[0]@ == ".rebaseignore"@,
        r@[1]@ == ".aiexclude"@,
        r@[2]@ == ".aiignore"@,
        r@[3]@ == ".codeiumignore"@,
        r@[4]@ == ".cursorignore"@,
{
    let mut r = Vec::new();
    r.push(".rebaseignore");
    r.push(".aiexclude");  // Gemini Code Assist
    r.push(".aiignore");  // JetBrains AI / generic
    r.push(".codeiumignore");
    r.push(".cursorignore");
    r
}

/// The characters after the last `'.'` of a text; all of them when it has
/// no `'.'`.
pub open spec fn after_last_dot(name: Seq<char>) -> Seq<char>
    decreases name.len(),
{
    if name.len() == 0 {
        name
    } else if name.last() == '.' {
        seq![]
    } else {
        after_last_dot(name.drop_last()).push(name.last())
    }
}

/// The extension of a file name: what follows its last `'.'`. A name
/// without a `'.'` has none.
pub open spec fn extension(name: Seq<char>) -> Option<Seq<char>> {
    if name.contains('.') {
        Some(after_last_dot(name))
    } else {
        None
    }
}

/// The characters of `name` after its last `'.'`, or `None` when it has no
/// `'.'`.
pub fn extension_of(name: &str) -> (r: Option<String>)
    ensures
        r.is_some() == extension(name@).is_some(),
        r.is_some() ==> r.unwrap()@ == extension(name@).unwrap(),
{
    let cs = chars_of(name);
    let mut i = cs.len();
    assert(cs@.take(i as int) =~= cs@);
    assert(cs@.skip(i as int) =~= Seq::<char>::empty());
    assert(after_last_dot(cs@) + Seq::<char>::empty() =~= after_last_dot(cs@));
    while i > 0 && cs[i - 1] != '.'
        invariant
            cs@ == name@,
            i <= cs.len(),
            after_last_dot(cs@) == after_last_dot(cs@.take(i as int)) + cs@.skip(i as int),
            forall|j: int| i <= j < cs.len() ==> cs@[j] != '.',
        decreases i,
    {
        proof {
            let t = cs@.take(i as int);
            assert(t.drop_last() =~= cs@.take(i - 1));
            assert(t.last() == cs@[i - 1]);
            assert(cs@.skip(i - 1) =~= seq![cs@[i - 1]] + cs@.skip(i as int));
            assert(after_last_dot(t) == after_last_dot(t.drop_last()).push(t.last()));
            assert(after_last_dot(t.drop_last()).push(t.last()) + cs@.skip(i as int)
                =~= after_last_dot(cs@.take(i - 1)) + cs@.skip(i - 1));
        }
        i = i - 1;
    }
    proof {
        let t = cs@.take(i as int);
        if i > 0 {
            assert(t.last() == '.');
        } else {
            assert(t =~= Seq::<char>::empty());
        }
        assert(after_last_dot(t) =~= Seq::<char>::empty());
    }
    if i == 0 {
        assert(!cs@.contains('.'));
        return None;
    }
    assert(cs@[i - 1] == '.');
    let mut r = String::new();
    let mut j = i;
    while j < cs.len()
        invariant
            i <= j <= cs.len(),
            r@ == cs@.subrange(i as int, j as int),
        decreases cs.len() - j,
    {
        push_char(&mut r, cs[j]);
        assert(cs@.subrange(i as int, j as int).push(cs@[j as int]) =~= cs@.subrange(i as int, j + 1));
        j = j + 1;
    }
    assert(cs@.subrange(i as int, cs.len() as int) =~= cs@.skip(i as int));
    assert(Seq::<char>::empty() + cs@.skip(i as int) =~= cs@.skip(i as int));
    Some(r)
}

/// The lowercase form of a text, as Unicode defines it (the `Lowercase`
/// derived property, with its special cases such as a final sigma).
pub uninterp spec fn lowercase(s: Seq<char>) -> Seq<char>;

/// Calls `str::to_lowercase`, which std documents as returning the
/// lowercase equivalent of the string as a new `String`.
#[verifier::external_body]
fn to_lowercase(s: &str) -> (r: String)
    ensures
        r@ == lowercase(s@),
{
    s.to_lowercase()
}

/// The language tag of a (lowercase) file extension.
pub open spec fn language_of_extension(ext: Seq<char>) -> Option<Seq<char>> {
    if ext == "js"@ || ext == "mjs"@ || ext == "cjs"@ || ext == "jsx"@ {
        Some("javascript"@)
    } else if ext == "ts"@ || ext == "mts"@ || ext == "cts"@ || ext == "tsx"@ {
        Some("typescript"@)
    } else if ext == "vue"@ {
        Some("vue"@)
    } else if ext == "json"@ || ext == "jsonc"@ {
        Some("json"@)
    } else if ext == "css"@ || ext == "scss"@ || ext == "less"@ {
        Some("css"@)
    } else if ext == "html"@ || ext == "htm"@ {
        Some("html"@)
    } else if ext == "md"@ || ext == "markdown"@ {
        Some("markdown"@)
    } else if ext == "py"@ {
        Some("python"@)
    } else if ext == "go"@ {
        Some("go"@)
    } else if ext == "rs"@ {
        Some("rust"@)
    } else if ext == "php"@ {
        Some("php"@)
    } else if ext == "rb"@ {
        Some("ruby"@)
    } else if ext == "java"@ {
        Some("java"@)
    } else if ext == "ex"@ || ext == "exs"@ || ext == "heex"@ || ext == "eex"@ {
        Some("elixir"@)
    } else if ext == "erl"@ || ext == "hrl"@ {
        Some("erlang"@)
    } else if ext == "c"@ || ext == "h"@ {
        Some("c"@)
    } else if ext == "cpp"@ || ext == "cc"@ || ext == "hpp"@ || ext == "cxx"@ {
        Some("cpp"@)
    } else if ext == "sh"@ || ext == "bash"@ {
        Some("shell"@)
    } else if ext == "yml"@ || ext == "yaml"@ {
        Some("yaml"@)
    } else if ext == "toml"@ {
        Some("toml"@)
    } else if ext == "sql"@ {
        Some("sql"@)
    } else {
        None
    }
}

/// A static tag and the tag it stands for, as character sequences.
pub open spec fn same_tag(r: Option<&'static str>, t: Option<Seq<char>>) -> bool {
    match r {
        Some(l) => t == Some(l@),
        None => t is None,
    }
}

/// The language tag of a lowercase file extension, `None` for files that are
/// not indexed.
pub fn language_for_extension(ext: &str) -> (r: Option<&'static str>)
    ensures
        same_tag(r, language_of_extension(ext@)),
{
    if str_eq(ext, "js") || str_eq(ext, "mjs") || str_eq(ext, "cjs") || str_eq(ext, "jsx") {
        Some("javascript")
    } else if str_eq(ext, "ts") || str_eq(ext, "mts") || str_eq(ext, "cts") || str_eq(ext, "tsx") {
        Some("typescript")
    } else if str_eq(ext, "vue") {
        Some("vue")
    } else if str_eq(ext, "json") || str_eq(ext, "jsonc") {
        Some("json")
    } else if str_eq(ext, "css") || str_eq(ext, "scss") || str_eq(ext, "less") {
        Some("css")
    } else if str_eq(ext, "html") || str_eq(ext, "htm") {
        Some("html")
    } else if str_eq(ext, "md") || str_eq(ext, "markdown") {
        Some("markdown")
    } else if str_eq(ext, "py") {
        Some("python")
    } else if str_eq(ext, "go") {
        Some("go")
    } else if str_eq(ext, "rs") {
        Some("rust")
    } else if str_eq(ext, "php") {
        Some("php")
    } else if str_eq(ext, "rb") {
        Some("ruby")
    } else if str_eq(ext, "java") {
        Some("java")
    } else if str_eq(ext, "ex") || str_eq(ext, "exs") || str_eq(ext, "heex") || str_eq(ext, "eex") {
        Some("elixir")
    } else if str_eq(ext, "erl") || str_eq(ext, "hrl") {
        Some("erlang")
    } else if str_eq(ext, "c") || str_eq(ext, "h") {
        Some("c")
    } else if str_eq(ext, "cpp") || str_eq(ext, "cc") || str_eq(ext, "hpp") || str_eq(ext, "cxx") {
        Some("cpp")
    } else if str_eq(ext, "sh") || str_eq(ext, "bash") {
        Some("shell")
    } else if str_eq(ext, "yml") || str_eq(ext, "yaml") {
        Some("yaml")
    } else if str_eq(ext, "toml") {
        Some("toml")
    } else if str_eq(ext, "sql") {
        Some("sql")
    } else {
        None
    }
}

/// The language tag of a file name: that of its extension, compared
/// without regard to case; none for a name without an extension.
pub open spec fn language_of(name: Seq<char>) -> Option<Seq<char>> {
    match extension(name) {
        Some(ext) => language_of_extension(lowercase(ext)),
        None => None,
    }
}

#[verifier::rlimit(50)]
proof fn lemma_extension_entries_0()
    ensures
        language_of_extension("js"@) == Some("javascript"@),
        language_of_extension("mjs"@) == Some("javascript"@),
        language_of_extension("cjs"@) == Some("javascript"@),
        language_of_extension("jsx"@) == Some("javascript"@),
        language_of_extension("ts"@) == Some("typescript"@),
        language_of_extension("mts"@) == Some("typescript"@),
        language_of_extension("cts"@) == Some("typescript"@),
{
    reveal_strlit("cjs");
    assert("cjs"@.len() == 3);
    reveal_strlit("cts");
    assert("cts"@.len() == 3);
    reveal_strlit("javascript");
    assert("javascript"@.len() == 10);
    reveal_strlit("js");
    assert("js"@.len() == 2);
    reveal_strlit("jsx");
    assert("jsx"@.len() == 3);
    reveal_strlit("mjs");
    assert("mjs"@.len() == 3);
    reveal_strlit("mts");
    assert("mts"@.len() == 3);
    reveal_strlit("ts");
    assert("ts"@.len() == 2);
    reveal_strlit("typescript");
    assert("typescript"@.len() == 10);
    assert("cjs"@[0] != "mjs"@[0]);
    assert("jsx"@[0] != "mjs"@[0]);
    assert("jsx"@[0] != "cjs"@[0]);
    assert("ts"@[0] != "js"@[0]);
    assert("mts"@[1] != "mjs"@[1]);
    assert("mts"@[0] != "cjs"@[0]);
    assert("mts"@[0] != "jsx"@[0]);
    assert("cts"@[0] != "mjs"@[0]);
    assert("cts"@[1] != "cjs"@[1]);
    assert("cts"@[0] != "jsx"@[0]);
    assert("cts"@[0] != "mts"@[0]);
}

#[verifier::rlimit(50)]
proof fn lemma_extension_entries_1()
    ensures
        language_of_extension("tsx"@) == Some("typescript"@),
        language_of_extension("vue"@) == Some("vue"@),
        language_of_extension("json"@) == Some("json"@),
        language_of_extension("jsonc"@) == Some("json"@),
        language_of_extension("css"@) == Some("css"@),
        language_of_extension("scss"@) == Some("css"@),
        language_of_extension("less"@) == Some("css"@),
{
    reveal_strlit("cjs");
    assert("cjs"@.len() == 3);
    reveal_strlit("css");
    assert("css"@.len() == 3);
    reveal_strlit("cts");
    assert("cts"@.len() == 3);
    reveal_strlit("js");
    assert("js"@.len() == 2);
    reveal_strlit("json");
    assert("json"@.len() == 4);
    reveal_strlit("jsonc");
    assert("jsonc"@.len() == 5);
    reveal_strlit("jsx");
    assert("jsx"@.len() == 3);
    reveal_strlit("less");
    assert("less"@.len() == 4);
    reveal_strlit("mjs");
    assert("mjs"@.len() == 3);
    reveal_strlit("mts");
    assert("mts"@.len() == 3);
    reveal_strlit("scss");
    assert("scss"@.len() == 4);
    reveal_strlit("ts");
    assert("ts"@.len() == 2);
    reveal_strlit("tsx");
    assert("tsx"@.len() == 3);
    reveal_strlit("typescript");
    assert("typescript"@.len() == 10);
    reveal_strlit("vue");
    assert("vue"@.len() == 3);
    assert("tsx"@[0] != "mjs"@[0]);
    assert("tsx"@[0] != "cjs"@[0]);
    assert("tsx"@[0] != "jsx"@[0]);
    assert("tsx"@[0] != "mts"@[0]);
    assert("tsx"@[0] != "cts"@[0]);
    assert("vue"@[0] != "mjs"@[0]);
    assert("vue"@[0] != "cjs"@[0]);
    assert("vue"@[0] != "jsx"@[0]);
    assert("vue"@[0] != "mts"@[0]);
    assert("vue"@[0] != "cts"@[0]);
    assert("vue"@[0] != "tsx"@[0]);
    assert("css"@[0] != "mjs"@[0]);
    assert("css"@[1] != "cjs"@[1]);
    assert("css"@[0] != "jsx"@[0]);
    assert("css"@[0] != "mts"@[0]);
    assert("css"@[1] != "cts"@[1]);
    assert("css"@[0] != "tsx"@[0]);
    assert("css"@[0] != "vue"@[0]);
    assert("scss"@[0] != "json"@[0]);
    assert("less"@[0] != "json"@[0]);
    assert("less"@[0] != "scss"@[0]);
}

#[verifier::rlimit(50)]
proof fn lemma_extension_entries_2()
    ensures
        language_of_extension("html"@) == Some("html"@),
        language_of_extension("htm"@) == Some("html"@),
        language_of_extension("md"@) == Some("markdown"@),
        language_of_extension("markdown"@) == Some("markdown"@),
        language_of_extension("py"@) == Some("python"@),
        language_of_extension("go"@) == Some("go"@),
        language_of_extension("rs"@) == Some("rust"@),
{
    reveal_strlit("cjs");
    assert("cjs"@.len() == 3);
    reveal_strlit("css");
    assert("css"@.len() == 3);
    reveal_strlit("cts");
    assert("cts"@.len() == 3);
    reveal_strlit("go");
    assert("go"@.len() == 2);
    reveal_strlit("htm");
    assert("htm"@.len() == 3);
    reveal_strlit("html");
    assert("html"@.len() == 4);
    reveal_strlit("js");
    assert("js"@.len() == 2);
    reveal_strlit("json");
    assert("json"@.len() == 4);
    reveal_strlit("jsonc");
    assert("jsonc"@.len() == 5);
    reveal_strlit("jsx");
    assert("jsx"@.len() == 3);
    reveal_strlit("less");
    assert("less"@.len() == 4);
    reveal_strlit("markdown");
    assert("markdown"@.len() == 8);
    reveal_strlit("md");
    assert("md"@.len() == 2);
    reveal_strlit("mjs");
    assert("mjs"@.len() == 3);
    reveal_strlit("mts");
    assert("mts"@.len() == 3);
    reveal_strlit("py");
    assert("py"@.len() == 2);
    reveal_strlit("python");
    assert("python"@.len() == 6);
    reveal_strlit("rs");
    assert("rs"@.len() == 2);
    reveal_strlit("rust");
    assert("rust"@.len() == 4);
    reveal_strlit("scss");
    assert("scss"@.len() == 4);
    reveal_strlit("ts");
    assert("ts"@.len() == 2);
    reveal_strlit("tsx");
    assert("tsx"@.len() == 3);
    reveal_strlit("vue");
    assert("vue"@.len() == 3);
    assert("html"@[0] != "json"@[0]);
    assert("html"@[0] != "scss"@[0]);
    assert("html"@[0] != "less"@[0]);
    assert("htm"@[0] != "mjs"@[0]);
    assert("htm"@[0] != "cjs"@[0]);
    assert("htm"@[0] != "jsx"@[0]);
    assert("htm"@[0] != "mts"@[0]);
    assert("htm"@[0] != "cts"@[0]);
    assert("htm"@[0] != "tsx"@[0]);
    assert("htm"@[0] != "vue"@[0]);
    assert("htm"@[0] != "css"@[0]);
    assert("md"@[0] != "js"@[0]);
    assert("md"@[0] != "ts"@[0]);
    assert("py"@[0] != "js"@[0]);
    assert("py"@[0] != "ts"@[0]);
    assert("py"@[0] != "md"@[0]);
    assert("go"@[0] != "js"@[0]);
    assert("go"@[0] != "ts"@[0]);
    assert("go"@[0] != "md"@[0]);
    assert("go"@[0] != "py"@[0]);
    assert("rs"@[0] != "js"@[0]);
    assert("rs"@[0] != "ts"@[0]);
    assert("rs"@[0] != "md"@[0]);
    assert("rs"@[0] != "py"@[0]);
    assert("rs"@[0] != "go"@[0]);
}

#[verifier::rlimit(50)]
proof fn lemma_extension_entries_3()
    ensures
        language_of_extension("php"@) == Some("php"@),
        language_of_extension("rb"@) == Some("ruby"@),
        language_of_extension("java"@) == Some("java"@),
        language_of_extension("ex"@) == Some("elixir"@),
        language_of_extension("exs"@) == Some("elixir"@),
        language_of_extension("heex"@) == Some("elixir"@),
        language_of_extension("eex"@) == Some("elixir"@),
{
    reveal_strlit("cjs");
    assert("cjs"@.len() == 3);
    reveal_strlit("css");
    assert("css"@.len() == 3);
    reveal_strlit("cts");
    assert("cts"@.len() == 3);
    reveal_strlit("eex");
    assert("eex"@.len() == 3);
    reveal_strlit("elixir");
    assert("elixir"@.len() == 6);
    reveal_strlit("ex");
    assert("ex"@.len() == 2);
    reveal_strlit("exs");
    assert("exs"@.len() == 3);
    reveal_strlit("go");
    assert("go"@.len() == 2);
    reveal_strlit("heex");
    assert("heex"@.len() == 4);
    reveal_strlit("htm");
    assert("htm"@.len() == 3);
    reveal_strlit("html");
    assert("html"@.len() == 4);
    reveal_strlit("java");
    assert("java"@.len() == 4);
    reveal_strlit("js");
    assert("js"@.len() == 2);
    reveal_strlit("json");
    assert("json"@.len() == 4);
    reveal_strlit("jsonc");
    assert("jsonc"@.len() == 5);
    reveal_strlit("jsx");
    assert("jsx"@.len() == 3);
    reveal_strlit("less");
    assert("less"@.len() == 4);
    reveal_strlit("markdown");
    assert("markdown"@.len() == 8);
    reveal_strlit("md");
    assert("md"@.len() == 2);
    reveal_strlit("mjs");
    assert("mjs"@.len() == 3);
    reveal_strlit("mts");
    assert("mts"@.len() == 3);
    reveal_strlit("php");
    assert("php"@.len() == 3);
    reveal_strlit("py");
    assert("py"@.len() == 2);
    reveal_strlit("rb");
    assert("rb"@.len() == 2);
    reveal_strlit("rs");
    assert("rs"@.len() == 2);
    reveal_strlit("ruby");
    assert("ruby"@.len() == 4);
    reveal_strlit("scss");
    assert("scss"@.len() == 4);
    reveal_strlit("ts");
    assert("ts"@.len() == 2);
    reveal_strlit("tsx");
    assert("tsx"@.len() == 3);
    reveal_strlit("vue");
    assert("vue"@.len() == 3);
    assert("php"@[0] != "mjs"@[0]);
    assert("php"@[0] != "cjs"@[0]);
    assert("php"@[0] != "jsx"@[0]);
    assert("php"@[0] != "mts"@[0]);
    assert("php"@[0] != "cts"@[0]);
    assert("php"@[0] != "tsx"@[0]);
    assert("php"@[0] != "vue"@[0]);
    assert("php"@[0] != "css"@[0]);
    assert("php"@[0] != "htm"@[0]);
    assert("rb"@[0] != "js"@[0]);
    assert("rb"@[0] != "ts"@[0]);
    assert("rb"@[0] != "md"@[0]);
    assert("rb"@[0] != "py"@[0]);
    assert("rb"@[0] != "go"@[0]);
    assert("rb"@[1] != "rs"@[1]);
    assert("java"@[1] != "json"@[1]);
    assert("java"@[0] != "scss"@[0]);
    assert("java"@[0] != "less"@[0]);
    assert("java"@[0] != "html"@[0]);
    assert("ex"@[0] != "js"@[0]);
    assert("ex"@[0] != "ts"@[0]);
    assert("ex"@[0] != "md"@[0]);
    assert("ex"@[0] != "py"@[0]);
    assert("ex"@[0] != "go"@[0]);
    assert("ex"@[0] != "rs"@[0]);
    assert("ex"@[0] != "rb"@[0]);
    assert("exs"@[0] != "mjs"@[0]);
    assert("exs"@[0] != "cjs"@[0]);
    assert("exs"@[0] != "jsx"@[0]);
    assert("exs"@[0] != "mts"@[0]);
    assert("exs"@[0] != "cts"@[0]);
    assert("exs"@[0] != "tsx"@[0]);
    assert("exs"@[0] != "vue"@[0]);
    assert("exs"@[0] != "css"@[0]);
    assert("exs"@[0] != "htm"@[0]);
    assert("exs"@[0] != "php"@[0]);
    assert("heex"@[0] != "json"@[0]);
    assert("heex"@[0] != "scss"@[0]);
    assert("heex"@[0] != "less"@[0]);
    assert("heex"@[1] != "html"@[1]);
    assert("heex"@[0] != "java"@[0]);
    assert("eex"@[0] != "mjs"@[0]);
    assert("eex"@[0] != "cjs"@[0]);
    assert("eex"@[0] != "jsx"@[0]);
    assert("eex"@[0] != "mts"@[0]);
    assert("eex"@[0] != "cts"@[0]);
    assert("eex"@[0] != "tsx"@[0]);
    assert("eex"@[0] != "vue"@[0]);
    assert("eex"@[0] != "css"@[0]);
    assert("eex"@[0] != "htm"@[0]);
    assert("eex"@[0] != "php"@[0]);
    assert("eex"@[1] != "exs"@[1]);
}

#[verifier::rlimit(50)]
proof fn lemma_extension_entries_4()
    ensures
        language_of_extension("erl"@) == Some("erlang"@),
        language_of_extension("hrl"@) == Some("erlang"@),
        language_of_extension("c"@) == Some("c"@),
        language_of_extension("h"@) == Some("c"@),
        language_of_extension("cpp"@) == Some("cpp"@),
        language_of_extension("cc"@) == Some("cpp"@),
        language_of_extension("hpp"@) == Some("cpp"@),
{
    reveal_strlit("c");
    assert("c"@.len() == 1);
    reveal_strlit("cc");
    assert("cc"@.len() == 2);
    reveal_strlit("cjs");
    assert("cjs"@.len() == 3);
    reveal_strlit("cpp");
    assert("cpp"@.len() == 3);
    reveal_strlit("css");
    assert("css"@.len() == 3);
    reveal_strlit("cts");
    assert("cts"@.len() == 3);
    reveal_strlit("eex");
    assert("eex"@.len() == 3);
    reveal_strlit("erl");
    assert("erl"@.len() == 3);
    reveal_strlit("erlang");
    assert("erlang"@.len() == 6);
    reveal_strlit("ex");
    assert("ex"@.len() == 2);
    reveal_strlit("exs");
    assert("exs"@.len() == 3);
    reveal_strlit("go");
    assert("go"@.len() == 2);
    reveal_strlit("h");
    assert("h"@.len() == 1);
    reveal_strlit("heex");
    assert("heex"@.len() == 4);
    reveal_strlit("hpp");
    assert("hpp"@.len() == 3);
    reveal_strlit("hrl");
    assert("hrl"@.len() == 3);
    reveal_strlit("htm");
    assert("htm"@.len() == 3);
    reveal_strlit("html");
    assert("html"@.len() == 4);
    reveal_strlit("java");
    assert("java"@.len() == 4);
    reveal_strlit("js");
    assert("js"@.len() == 2);
    reveal_strlit("json");
    assert("json"@.len() == 4);
    reveal_strlit("jsonc");
    assert("jsonc"@.len() == 5);
    reveal_strlit("jsx");
    assert("jsx"@.len() == 3);
    reveal_strlit("less");
    assert("less"@.len() == 4);
    reveal_strlit("markdown");
    assert("markdown"@.len() == 8);
    reveal_strlit("md");
    assert("md"@.len() == 2);
    reveal_strlit("mjs");
    assert("mjs"@.len() == 3);
    reveal_strlit("mts");
    assert("mts"@.len() == 3);
    reveal_strlit("php");
    assert("php"@.len() == 3);
    reveal_strlit("py");
    assert("py"@.len() == 2);
    reveal_strlit("rb");
    assert("rb"@.len() == 2);
    reveal_strlit("rs");
    assert("rs"@.len() == 2);
    reveal_strlit("scss");
    assert("scss"@.len() == 4);
    reveal_strlit("ts");
    assert("ts"@.len() == 2);
    reveal_strlit("tsx");
    assert("tsx"@.len() == 3);
    reveal_strlit("vue");
    assert("vue"@.len() == 3);
    assert("erl"@[0] != "mjs"@[0]);
    assert("erl"@[0] != "cjs"@[0]);
    assert("erl"@[0] != "jsx"@[0]);
    assert("erl"@[0] != "mts"@[0]);
    assert("erl"@[0] != "cts"@[0]);
    assert("erl"@[0] != "tsx"@[0]);
    assert("erl"@[0] != "vue"@[0]);
    assert("erl"@[0] != "css"@[0]);
    assert("erl"@[0] != "htm"@[0]);
    assert("erl"@[0] != "php"@[0]);
    assert("erl"@[1] != "exs"@[1]);
    assert("erl"@[1] != "eex"@[1]);
    assert("hrl"@[0] != "mjs"@[0]);
    assert("hrl"@[0] != "cjs"@[0]);
    assert("hrl"@[0] != "jsx"@[0]);
    assert("hrl"@[0] != "mts"@[0]);
    assert("hrl"@[0] != "cts"@[0]);
    assert("hrl"@[0] != "tsx"@[0]);
    assert("hrl"@[0] != "vue"@[0]);
    assert("hrl"@[0] != "css"@[0]);
    assert("hrl"@[1] != "htm"@[1]);
    assert("hrl"@[0] != "php"@[0]);
    assert("hrl"@[0] != "exs"@[0]);
    assert("hrl"@[0] != "eex"@[0]);
    assert("hrl"@[0] != "erl"@[0]);
    assert("h"@[0] != "c"@[0]);
    assert("cpp"@[0] != "mjs"@[0]);
    assert("cpp"@[1] != "cjs"@[1]);
    assert("cpp"@[0] != "jsx"@[0]);
    assert("cpp"@[0] != "mts"@[0]);
    assert("cpp"@[1] != "cts"@[1]);
    assert("cpp"@[0] != "tsx"@[0]);
    assert("cpp"@[0] != "vue"@[0]);
    assert("cpp"@[1] != "css"@[1]);
    assert("cpp"@[0] != "htm"@[0]);
    assert("cpp"@[0] != "php"@[0]);
    assert("cpp"@[0] != "exs"@[0]);
    assert("cpp"@[0] != "eex"@[0]);
    assert("cpp"@[0] != "erl"@[0]);
    assert("cpp"@[0] != "hrl"@[0]);
    assert("cc"@[0] != "js"@[0]);
    assert("cc"@[0] != "ts"@[0]);
    assert("cc"@[0] != "md"@[0]);
    assert("cc"@[0] != "py"@[0]);
    assert("cc"@[0] != "go"@[0]);
    assert("cc"@[0] != "rs"@[0]);
    assert("cc"@[0] != "rb"@[0]);
    assert("cc"@[0] != "ex"@[0]);
    assert("hpp"@[0] != "mjs"@[0]);
    assert("hpp"@[0] != "cjs"@[0]);
    assert("hpp"@[0] != "jsx"@[0]);
    assert("hpp"@[0] != "mts"@[0]);
    assert("hpp"@[0] != "cts"@[0]);
    assert("hpp"@[0] != "tsx"@[0]);
    assert("hpp"@[0] != "vue"@[0]);
    assert("hpp"@[0] != "css"@[0]);
    assert("hpp"@[1] != "htm"@[1]);
    assert("hpp"@[0] != "php"@[0]);
    assert("hpp"@[0] != "exs"@[0]);
    assert("hpp"@[0] != "eex"@[0]);
    assert("hpp"@[0] != "erl"@[0]);
    assert("hpp"@[1] != "hrl"@[1]);
    assert("hpp"@[0] != "cpp"@[0]);
}

#[verifier::rlimit(50)]
proof fn lemma_extension_entries_5()
    ensures
        language_of_extension("cxx"@) == Some("cpp"@),
        language_of_extension("sh"@) == Some("shell"@),
        language_of_extension("bash"@) == Some("shell"@),
        language_of_extension("yml"@) == Some("yaml"@),
        language_of_extension("yaml"@) == Some("yaml"@),
        language_of_extension("toml"@) == Some("toml"@),
        language_of_extension("sql"@) == Some("sql"@),
{
    reveal_strlit("bash");
    assert("bash"@.len() == 4);
    reveal_strlit("c");
    assert("c"@.len() == 1);
    reveal_strlit("cc");
    assert("cc"@.len() == 2);
    reveal_strlit("cjs");
    assert("cjs"@.len() == 3);
    reveal_strlit("cpp");
    assert("cpp"@.len() == 3);
    reveal_strlit("css");
    assert("css"@.len() == 3);
    reveal_strlit("cts");
    assert("cts"@.len() == 3);
    reveal_strlit("cxx");
    assert("cxx"@.len() == 3);
    reveal_strlit("eex");
    assert("eex"@.len() == 3);
    reveal_strlit("erl");
    assert("erl"@.len() == 3);
    reveal_strlit("ex");
    assert("ex"@.len() == 2);
    reveal_strlit("exs");
    assert("exs"@.len() == 3);
    reveal_strlit("go");
    assert("go"@.len() == 2);
    reveal_strlit("h");
    assert("h"@.len() == 1);
    reveal_strlit("heex");
    assert("heex"@.len() == 4);
    reveal_strlit("hpp");
    assert("hpp"@.len() == 3);
    reveal_strlit("hrl");
    assert("hrl"@.len() == 3);
    reveal_strlit("htm");
    assert("htm"@.len() == 3);
    reveal_strlit("html");
    assert("html"@.len() == 4);
    reveal_strlit("java");
    assert("java"@.len() == 4);
    reveal_strlit("js");
    assert("js"@.len() == 2);
    reveal_strlit("json");
    assert("json"@.len() == 4);
    reveal_strlit("jsonc");
    assert("jsonc"@.len() == 5);
    reveal_strlit("jsx");
    assert("jsx"@.len() == 3);
    reveal_strlit("less");
    assert("less"@.len() == 4);
    reveal_strlit("markdown");
    assert("markdown"@.len() == 8);
    reveal_strlit("md");
    assert("md"@.len() == 2);
    reveal_strlit("mjs");
    assert("mjs"@.len() == 3);
    reveal_strlit("mts");
    assert("mts"@.len() == 3);
    reveal_strlit("php");
    assert("php"@.len() == 3);
    reveal_strlit("py");
    assert("py"@.len() == 2);
    reveal_strlit("rb");
    assert("rb"@.len() == 2);
    reveal_strlit("rs");
    assert("rs"@.len() == 2);
    reveal_strlit("scss");
    assert("scss"@.len() == 4);
    reveal_strlit("sh");
    assert("sh"@.len() == 2);
    reveal_strlit("shell");
    assert("shell"@.len() == 5);
    reveal_strlit("sql");
    assert("sql"@.len() == 3);
    reveal_strlit("toml");
    assert("toml"@.len() == 4);
    reveal_strlit("ts");
    assert("ts"@.len() == 2);
    reveal_strlit("tsx");
    assert("tsx"@.len() == 3);
    reveal_strlit("vue");
    assert("vue"@.len() == 3);
    reveal_strlit("yaml");
    assert("yaml"@.len() == 4);
    reveal_strlit("yml");
    assert("yml"@.len() == 3);
    assert("cxx"@[0] != "mjs"@[0]);
    assert("cxx"@[1] != "cjs"@[1]);
    assert("cxx"@[0] != "jsx"@[0]);
    assert("cxx"@[0] != "mts"@[0]);
    assert("cxx"@[1] != "cts"@[1]);
    assert("cxx"@[0] != "tsx"@[0]);
    assert("cxx"@[0] != "vue"@[0]);
    assert("cxx"@[1] != "css"@[1]);
    assert("cxx"@[0] != "htm"@[0]);
    assert("cxx"@[0] != "php"@[0]);
    assert("cxx"@[0] != "exs"@[0]);
    assert("cxx"@[0] != "eex"@[0]);
    assert("cxx"@[0] != "erl"@[0]);
    assert("cxx"@[0] != "hrl"@[0]);
    assert("cxx"@[1] != "cpp"@[1]);
    assert("cxx"@[0] != "hpp"@[0]);
    assert("sh"@[0] != "js"@[0]);
    assert("sh"@[0] != "ts"@[0]);
    assert("sh"@[0] != "md"@[0]);
    assert("sh"@[0] != "py"@[0]);
    assert("sh"@[0] != "go"@[0]);
    assert("sh"@[0] != "rs"@[0]);
    assert("sh"@[0] != "rb"@[0]);
    assert("sh"@[0] != "ex"@[0]);
    assert("sh"@[0] != "cc"@[0]);
    assert("bash"@[0] != "json"@[0]);
    assert("bash"@[0] != "scss"@[0]);
    assert("bash"@[0] != "less"@[0]);
    assert("bash"@[0] != "html"@[0]);
    assert("bash"@[0] != "java"@[0]);
    assert("bash"@[0] != "heex"@[0]);
    assert("yml"@[0] != "mjs"@[0]);
    assert("yml"@[0] != "cjs"@[0]);
    assert("yml"@[0] != "jsx"@[0]);
    assert("yml"@[0] != "mts"@[0]);
    assert("yml"@[0] != "cts"@[0]);
    assert("yml"@[0] != "tsx"@[0]);
    assert("yml"@[0] != "vue"@[0]);
    assert("yml"@[0] != "css"@[0]);
    assert("yml"@[0] != "htm"@[0]);
    assert("yml"@[0] != "php"@[0]);
    assert("yml"@[0] != "exs"@[0]);
    assert("yml"@[0] != "eex"@[0]);
    assert("yml"@[0] != "erl"@[0]);
    assert("yml"@[0] != "hrl"@[0]);
    assert("yml"@[0] != "cpp"@[0]);
    assert("yml"@[0] != "hpp"@[0]);
    assert("yml"@[0] != "cxx"@[0]);
    assert("yaml"@[0] != "json"@[0]);
    assert("yaml"@[0] != "scss"@[0]);
    assert("yaml"@[0] != "less"@[0]);
    assert("yaml"@[0] != "html"@[0]);
    assert("yaml"@[0] != "java"@[0]);
    assert("yaml"@[0] != "heex"@[0]);
    assert("yaml"@[0] != "bash"@[0]);
    assert("toml"@[0] != "json"@[0]);
    assert("toml"@[0] != "scss"@[0]);
    assert("toml"@[0] != "less"@[0]);
    assert("toml"@[0] != "html"@[0]);
    assert("toml"@[0] != "java"@[0]);
    assert("toml"@[0] != "heex"@[0]);
    assert("toml"@[0] != "bash"@[0]);
    assert("toml"@[0] != "yaml"@[0]);
    assert("sql"@[0] != "mjs"@[0]);
    assert("sql"@[0] != "cjs"@[0]);
    assert("sql"@[0] != "jsx"@[0]);
    assert("sql"@[0] != "mts"@[0]);
    assert("sql"@[0] != "cts"@[0]);
    assert("sql"@[0] != "tsx"@[0]);
    assert("sql"@[0] != "vue"@[0]);
    assert("sql"@[0] != "css"@[0]);
    assert("sql"@[0] != "htm"@[0]);
    assert("sql"@[0] != "php"@[0]);
    assert("sql"@[0] != "exs"@[0]);
    assert("sql"@[0] != "eex"@[0]);
    assert("sql"@[0] != "erl"@[0]);
    assert("sql"@[0] != "hrl"@[0]);
    assert("sql"@[0] != "cpp"@[0]);
    assert("sql"@[0] != "hpp"@[0]);
    assert("sql"@[0] != "cxx"@[0]);
    assert("sql"@[0] != "yml"@[0]);
}

/// Each listed extension's entry in the table.
proof fn lemma_extension_entries()
    ensures
        language_of_extension("js"@) == Some("javascript"@),
        language_of_extension("mjs"@) == Some("javascript"@),
        language_of_extension("cjs"@) == Some("javascript"@),
        language_of_extension("jsx"@) == Some("javascript"@),
        language_of_extension("ts"@) == Some("typescript"@),
        language_of_extension("mts"@) == Some("typescript"@),
        language_of_extension("cts"@) == Some("typescript"@),
        language_of_extension("tsx"@) == Some("typescript"@),
        language_of_extension("vue"@) == Some("vue"@),
        language_of_extension("json"@) == Some("json"@),
        language_of_extension("jsonc"@) == Some("json"@),
        language_of_extension("css"@) == Some("css"@),
        language_of_extension("scss"@) == Some("css"@),
        language_of_extension("less"@) == Some("css"@),
        language_of_extension("html"@) == Some("html"@),
        language_of_extension("htm"@) == Some("html"@),
        language_of_extension("md"@) == Some("markdown"@),
        language_of_extension("markdown"@) == Some("markdown"@),
        language_of_extension("py"@) == Some("python"@),
        language_of_extension("go"@) == Some("go"@),
        language_of_extension("rs"@) == Some("rust"@),
        language_of_extension("php"@) == Some("php"@),
        language_of_extension("rb"@) == Some("ruby"@),
        language_of_extension("java"@) == Some("java"@),
        language_of_extension("ex"@) == Some("elixir"@),
        language_of_extension("exs"@) == Some("elixir"@),
        language_of_extension("heex"@) == Some("elixir"@),
        language_of_extension("eex"@) == Some("elixir"@),
        language_of_extension("erl"@) == Some("erlang"@),
        language_of_extension("hrl"@) == Some("erlang"@),
        language_of_extension("c"@) == Some("c"@),
        language_of_extension("h"@) == Some("c"@),
        language_of_extension("cpp"@) == Some("cpp"@),
        language_of_extension("cc"@) == Some("cpp"@),
        language_of_extension("hpp"@) == Some("cpp"@),
        language_of_extension("cxx"@) == Some("cpp"@),
        language_of_extension("sh"@) == Some("shell"@),
        language_of_extension("bash"@) == Some("shell"@),
        language_of_extension("yml"@) == Some("yaml"@),
        language_of_extension("yaml"@) == Some("yaml"@),
        language_of_extension("toml"@) == Some("toml"@),
        language_of_extension("sql"@) == Some("sql"@),
{
    lemma_extension_entries_0();
    lemma_extension_entries_1();
    lemma_extension_entries_2();
    lemma_extension_entries_3();
    lemma_extension_entries_4();
    lemma_extension_entries_5();
}

/// The extension table: a name that ends in `'.'` and an extension (with
/// no `'.'` in it) gets the tag listed for that extension, compared after
/// lowercasing; any other extension gets none; and a name with no `'.'`
/// gets none.
#[verifier::rlimit(50)]
pub proof fn lemma_language_table(prefix: Seq<char>, ext: Seq<char>)
    requires
        !ext.contains('.'),
    ensures
        lowercase(ext) == "js"@ ==> language_of(prefix + seq!['.'] + ext) == Some("javascript"@),
        lowercase(ext) == "mjs"@ ==> language_of(prefix + seq!['.'] + ext) == Some("javascript"@),
        lowercase(ext) == "cjs"@ ==> language_of(prefix + seq!['.'] + ext) == Some("javascript"@),
        lowercase(ext) == "jsx"@ ==> language_of(prefix + seq!['.'] + ext) == Some("javascript"@),
        lowercase(ext) == "ts"@ ==> language_of(prefix + seq!['.'] + ext) == Some("typescript"@),
        lowercase(ext) == "mts"@ ==> language_of(prefix + seq!['.'] + ext) == Some("typescript"@),
        lowercase(ext) == "cts"@ ==> language_of(prefix + seq!['.'] + ext) == Some("typescript"@),
        lowercase(ext) == "tsx"@ ==> language_of(prefix + seq!['.'] + ext) == Some("typescript"@),
        lowercase(ext) == "vue"@ ==> language_of(prefix + seq!['.'] + ext) == Some("vue"@),
        lowercase(ext) == "json"@ ==> language_of(prefix + seq!['.'] + ext) == Some("json"@),
        lowercase(ext) == "jsonc"@ ==> language_of(prefix + seq!['.'] + ext) == Some("json"@),
        lowercase(ext) == "css"@ ==> language_of(prefix + seq!['.'] + ext) == Some("css"@),
        lowercase(ext) == "scss"@ ==> language_of(prefix + seq!['.'] + ext) == Some("css"@),
        lowercase(ext) == "less"@ ==> language_of(prefix + seq!['.'] + ext) == Some("css"@),
        lowercase(ext) == "html"@ ==> language_of(prefix + seq!['.'] + ext) == Some("html"@),
        lowercase(ext) == "htm"@ ==> language_of(prefix + seq!['.'] + ext) == Some("html"@),
        lowercase(ext) == "md"@ ==> language_of(prefix + seq!['.'] + ext) == Some("markdown"@),
        lowercase(ext) == "markdown"@ ==> language_of(prefix + seq!['.'] + ext) == Some("markdown"@),
        lowercase(ext) == "py"@ ==> language_of(prefix + seq!['.'] + ext) == Some("python"@),
        lowercase(ext) == "go"@ ==> language_of(prefix + seq!['.'] + ext) == Some("go"@),
        lowercase(ext) == "rs"@ ==> language_of(prefix + seq!['.'] + ext) == Some("rust"@),
        lowercase(ext) == "php"@ ==> language_of(prefix + seq!['.'] + ext) == Some("php"@),
        lowercase(ext) == "rb"@ ==> language_of(prefix + seq!['.'] + ext) == Some("ruby"@),
        lowercase(ext) == "java"@ ==> language_of(prefix + seq!['.'] + ext) == Some("java"@),
        lowercase(ext) == "ex"@ ==> language_of(prefix + seq!['.'] + ext) == Some("elixir"@),
        lowercase(ext) == "exs"@ ==> language_of(prefix + seq!['.'] + ext) == Some("elixir"@),
        lowercase(ext) == "heex"@ ==> language_of(prefix + seq!['.'] + ext) == Some("elixir"@),
        lowercase(ext) == "eex"@ ==> language_of(prefix + seq!['.'] + ext) == Some("elixir"@),
        lowercase(ext) == "erl"@ ==> language_of(prefix + seq!['.'] + ext) == Some("erlang"@),
        lowercase(ext) == "hrl"@ ==> language_of(prefix + seq!['.'] + ext) == Some("erlang"@),
        lowercase(ext) == "c"@ ==> language_of(prefix + seq!['.'] + ext) == Some("c"@),
        lowercase(ext) == "h"@ ==> language_of(prefix + seq!['.'] + ext) == Some("c"@),
        lowercase(ext) == "cpp"@ ==> language_of(prefix + seq!['.'] + ext) == Some("cpp"@),
        lowercase(ext) == "cc"@ ==> language_of(prefix + seq!['.'] + ext) == Some("cpp"@),
        lowercase(ext) == "hpp"@ ==> language_of(prefix + seq!['.'] + ext) == Some("cpp"@),
        lowercase(ext) == "cxx"@ ==> language_of(prefix + seq!['.'] + ext) == Some("cpp"@),
        lowercase(ext) == "sh"@ ==> language_of(prefix + seq!['.'] + ext) == Some("shell"@),
        lowercase(ext) == "bash"@ ==> language_of(prefix + seq!['.'] + ext) == Some("shell"@),
        lowercase(ext) == "yml"@ ==> language_of(prefix + seq!['.'] + ext) == Some("yaml"@),
        lowercase(ext) == "yaml"@ ==> language_of(prefix + seq!['.'] + ext) == Some("yaml"@),
        lowercase(ext) == "toml"@ ==> language_of(prefix + seq!['.'] + ext) == Some("toml"@),
        lowercase(ext) == "sql"@ ==> language_of(prefix + seq!['.'] + ext) == Some("sql"@),
        language_of(prefix + seq!['.'] + ext) is Some ==> (lowercase(ext) == "js"@ || lowercase(ext) == "mjs"@ || lowercase(ext) == "cjs"@ || lowercase(ext) == "jsx"@ || lowercase(ext) == "ts"@ || lowercase(ext) == "mts"@ || lowercase(ext) == "cts"@ || lowercase(ext) == "tsx"@ || lowercase(ext) == "vue"@ || lowercase(ext) == "json"@ || lowercase(ext) == "jsonc"@ || lowercase(ext) == "css"@ || lowercase(ext) == "scss"@ || lowercase(ext) == "less"@ || lowercase(ext) == "html"@ || lowercase(ext) == "htm"@ || lowercase(ext) == "md"@ || lowercase(ext) == "markdown"@ || lowercase(ext) == "py"@ || lowercase(ext) == "go"@ || lowercase(ext) == "rs"@ || lowercase(ext) == "php"@ || lowercase(ext) == "rb"@ || lowercase(ext) == "java"@ || lowercase(ext) == "ex"@ || lowercase(ext) == "exs"@ || lowercase(ext) == "heex"@ || lowercase(ext) == "eex"@ || lowercase(ext) == "erl"@ || lowercase(ext) == "hrl"@ || lowercase(ext) == "c"@ || lowercase(ext) == "h"@ || lowercase(ext) == "cpp"@ || lowercase(ext) == "cc"@ || lowercase(ext) == "hpp"@ || lowercase(ext) == "cxx"@ || lowercase(ext) == "sh"@ || lowercase(ext) == "bash"@ || lowercase(ext) == "yml"@ || lowercase(ext) == "yaml"@ || lowercase(ext) == "toml"@ || lowercase(ext) == "sql"@),
        !prefix.contains('.') ==> language_of(prefix) is None,
{
    lemma_after_last_dot(prefix, ext);
    lemma_extension_entries();
}

/// What follows the last `'.'` of `prefix + "." + ext` is `ext`, when `ext`
/// has no `'.'`.
proof fn lemma_after_last_dot(prefix: Seq<char>, ext: Seq<char>)
    requires
        !ext.contains('.'),
    ensures
        after_last_dot(prefix + seq!['.'] + ext) == ext,
        (prefix + seq!['.'] + ext).contains('.'),
    decreases ext.len(),
{
    let name = prefix + seq!['.'] + ext;
    assert(name[prefix.len() as int] == '.');
    if ext.len() == 0 {
        assert(name.last() == '.');
    } else {
        assert(!ext.drop_last().contains('.')) by {
            if ext.drop_last().contains('.') {
                let j = choose|j: int| 0 <= j < ext.drop_last().len() && ext.drop_last()[j] == '.';
                assert(ext[j] == '.');
            }
        }
        lemma_after_last_dot(prefix, ext.drop_last());
        assert(name.drop_last() =~= prefix + seq!['.'] + ext.drop_last());
        assert(name.last() == ext.last());
        assert(ext.last() != '.') by {
            assert(ext[ext.len() - 1] == ext.last());
        }
        assert(ext.drop_last().push(ext.last()) =~= ext);
    }
}

/// Map a file extension to a language tag. Returns `None` for files we
/// don't index.
pub fn language_for(name: &str) -> (r: Option<&'static str>)
    ensures
        same_tag(r, language_of(name@)),
{
    let ext = match extension_of(name) {
        Some(ext) => ext,
        None => return None,
    };
    let lower = to_lowercase(ext.as_str());
    language_for_extension(lower.as_str())
}

/// Whether a zero byte occurs among the first 256 bytes.
pub open spec fn has_early_nul(bytes: Seq<u8>) -> bool {
    exists|i: int| 0 <= i < bytes.len() && i < 256 && bytes[i] == 0
}

/// Binary sniffing: a file is taken as binary when a zero byte occurs in
/// its first 256 bytes; later bytes are not looked at.
pub fn looks_binary(bytes: &[u8]) -> (r: bool)
    ensures
        r == has_early_nul(bytes@),
{
    let mut i: usize = 0;
    while i < bytes.len() && i < 256
        invariant
            i <= bytes.len(),
            i <= 256,
            forall|j: int| 0 <= j < i ==> bytes@[j] != 0,
        decreases bytes.len() - i,
    {
        if bytes[i] == 0 {
            return true;
        }
        i = i + 1;
    }
    false
}

/// The character sequences of a list of strings.
pub open spec fn strings_view(v: Seq<String>) -> Seq<Seq<char>> {
    v.map_values(|s: String| s@)
}

/// Whether `v` holds a string equal to `s`.
pub fn contains_str(v: &Vec<String>, s: &str) -> (r: bool)
    ensures
        r == strings_view(v@).contains(s@),
{
    let mut i: usize = 0;
    while i < v.len()
        invariant
            i <= v.len(),
            forall|j: int| 0 <= j < i ==> v@[j]@ != s@,
        decreases v.len() - i,
    {
        if str_eq(v[i].as_str(), s) {
            assert(strings_view(v@)[i as int] == s@);
            return true;
        }
        i = i + 1;
    }
    assert forall|j: int| 0 <= j < strings_view(v@).len() implies strings_view(v@)[j] != s@ by {
        assert(strings_view(v@)[j] == v@[j]@);
    }
    false
}

/// The language tag under which a walked entry is indexed, judged before its
/// size and bytes are looked at: only files, never inside a `.git`
/// directory, only known extensions, and, when `langs` is not empty, only
/// the languages it names.
pub open spec fn entry_language_of(
    is_file: bool,
    components: Seq<Seq<char>>,
    name: Seq<char>,
    langs: Seq<Seq<char>>,
) -> Option<Seq<char>> {
    if !is_file || components.contains(".git"@) {
        None
    } else {
        match language_of(name) {
            None => None,
            Some(l) => if langs.len() > 0 && !langs.contains(l) {
                None
            } else {
                Some(l)
            },
        }
    }
}

/// Only a `.git` component prunes by path: a file outside `.git`, with no
/// language filter, gets the language of its name whatever directories it
/// sits in (dependency trees included); a directory entry or anything under
/// `.git` gets none; and a language filter keeps exactly the listed tags.
pub proof fn lemma_entry_language(
    is_file: bool,
    components: Seq<Seq<char>>,
    name: Seq<char>,
    langs: Seq<Seq<char>>,
)
    ensures
        is_file && !components.contains(".git"@) && langs.len() == 0 ==> entry_language_of(
            is_file,
            components,
            name,
            langs,
        ) == language_of(name),
        !is_file || components.contains(".git"@) ==> entry_language_of(is_file, components, name, langs) is None,
        is_file && !components.contains(".git"@) && langs.len() > 0 ==> entry_language_of(
            is_file,
            components,
            name,
            langs,
        ) == match language_of(name) {
            Some(l) => if langs.contains(l) {
                Some(l)
            } else {
                None
            },
            None => None,
        },
{
}

/// Filtering by `langs` after the walk gives the same entries as filtering
/// during it: the language filter only drops entries, and only by their tag.
pub proof fn lemma_language_filter_commutes(
    is_file: bool,
    components: Seq<Seq<char>>,
    name: Seq<char>,
    langs: Seq<Seq<char>>,
)
    ensures
        entry_language_of(is_file, components, name, langs) == match entry_language_of(
            is_file,
            components,
            name,
            Seq::<Seq<char>>::empty(),
        ) {
            Some(l) => if langs.len() > 0 && !langs.contains(l) {
                None
            } else {
                Some(l)
            },
            None => None,
        },
{
}

/// The language tag of a walked entry, or `None` when it is skipped:
/// `components` are the names along its path, `name` its file name, and
/// `langs` the requested language tags (empty for all).
pub fn entry_language(is_file: bool, components: &Vec<String>, name: &str, langs: &Vec<String>) -> (r: Option<&'static str>)
    ensures
        same_tag(r, entry_language_of(is_file, strings_view(components@), name@, strings_view(langs@))),
{
    if !is_file {
        return None;
    }
    // Never index VCS internals.
    if contains_str(components, ".git") {
        return None;
    }
    let language = match language_for(name) {
        Some(l) => l,
        None => return None,
    };
    if langs.len() > 0 && !contains_str(langs, language) {
        return None;
    }
    Some(language)
}

/// Empty files and files over `max_bytes` are skipped.
pub fn size_admitted(len: u64, max_bytes: u64) -> (r: bool)
    ensures
        r == (0 < len <= max_bytes),
{
    !(len > max_bytes || len == 0)
}

/// A path with every backslash turned into a forward slash.
pub open spec fn forward_slashes(s: Seq<char>) -> Seq<char> {
    s.map_values(|c: char| if c == '\\' { '/' } else { c })
}

/// Writes a relative path with forward slashes, whatever the platform.
pub fn slash_path(s: &str) -> (r: String)
    ensures
        r@ == forward_slashes(s@),
{
    let cs = chars_of(s);
    let mut r = String::new();
    let mut i: usize = 0;
    while i < cs.len()
        invariant
            cs@ == s@,
            i <= cs.len(),
            r@ == forward_slashes(cs@.take(i as int)),
        decreases cs.len() - i,
    {
        let c = if cs[i] == '\\' { '/' } else { cs[i] };
        push_char(&mut r, c);
        assert(forward_slashes(cs@.take(i as int)).push(c) =~= forward_slashes(cs@.take(i + 1)));
        i = i + 1;
    }
    assert(cs@.take(cs.len() as int) =~= cs@);
    r
}

} // verus!
