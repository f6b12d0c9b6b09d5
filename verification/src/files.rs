//! The file list of the repository: which directory entries the scan keeps
//! or descends into, and the order the list is shown in.
use vstd::prelude::*;
use crate::text::{
    char_views, chars_of, copy_string, has_prefix, same_text, split_chars, split_on, views,
};

verus! {

broadcast use vstd::seq_lib::group_to_multiset_ensures;

/// The scan goes no deeper than this many directories below the root.
pub const MAX_SCAN_DEPTH: usize = 6;

/// The extensions of the files the list offers.
pub open spec fn code_exts() -> Seq<Seq<char>> {
    seq![
        "rs"@, "py"@, "js"@, "ts"@, "jsx"@, "tsx"@, "go"@, "c"@, "cpp"@, "h"@, "hpp"@,
        "java"@, "kt"@, "cs"@, "rb"@, "php"@, "swift"@, "zig"@, "lua"@, "sh"@, "bash"@,
        "toml"@, "yaml"@, "yml"@, "json"@, "md"@, "txt"@,
    ]
}

/// The directories the scan never enters.
pub open spec fn skip_dirs() -> Seq<Seq<char>> {
    seq![
        ".git"@, "target"@, "node_modules"@, ".cache"@, "dist"@, "build"@, "__pycache__"@,
        ".venv"@, "venv"@,
    ]
}

/// Whether `x` is one of `s`.
pub open spec fn listed(s: Seq<Seq<char>>, x: Seq<char>) -> bool {
    exists|i: int| 0 <= i < s.len() && s[i] == x
}

/// What the scan does with a directory entry.
#[derive(PartialEq, Eq, Structural, Clone, Copy)]
pub enum ScanStep {
    Skip,
    Descend,
    Keep,
}

/// The scan's decision for an entry named `name`: hidden entries other
/// than `.env` are skipped; directories are entered unless they are build
/// or tool directories; files are kept when their extension is a code or
/// text extension.
pub open spec fn scan_step(name: Seq<char>, is_dir: bool, ext: Option<Seq<char>>) -> ScanStep {
    if has_prefix(name, "."@) && name != ".env"@ {
        ScanStep::Skip
    } else if is_dir {
        if listed(skip_dirs(), name) {
            ScanStep::Skip
        } else {
            ScanStep::Descend
        }
    } else {
        let e = match ext {
            Some(x) => x,
            None => seq![],
        };
        if listed(code_exts(), e) {
            ScanStep::Keep
        } else {
            ScanStep::Skip
        }
    }
}

/// Every code and text file is offered: a file whose name is not hidden
/// (or is `.env`) is kept when its extension is one of `rs`, `py`, `js`,
/// `ts`, `jsx`, `tsx`, `go`, `c`, `cpp`, `h`, `hpp`, `java`, `kt`, `cs`,
/// `rb`, `php`, `swift`, `zig`, `lua`, `sh`, `bash`, `toml`, `yaml`, `yml`,
/// `json`, `md` or `txt`.
pub proof fn lemma_code_files_kept(name: Seq<char>)
    requires
        !has_prefix(name, "."@) || name == ".env"@,
    ensures
        scan_step(name, false, Some("rs"@)) == ScanStep::Keep,
        scan_step(name, false, Some("py"@)) == ScanStep::Keep,
        scan_step(name, false, Some("js"@)) == ScanStep::Keep,
        scan_step(name, false, Some("ts"@)) == ScanStep::Keep,
        scan_step(name, false, Some("jsx"@)) == ScanStep::Keep,
        scan_step(name, false, Some("tsx"@)) == ScanStep::Keep,
        scan_step(name, false, Some("go"@)) == ScanStep::Keep,
        scan_step(name, false, Some("c"@)) == ScanStep::Keep,
        scan_step(name, false, Some("cpp"@)) == ScanStep::Keep,
        scan_step(name, false, Some("h"@)) == ScanStep::Keep,
        scan_step(name, false, Some("hpp"@)) == ScanStep::Keep,
        scan_step(name, false, Some("java"@)) == ScanStep::Keep,
        scan_step(name, false, Some("kt"@)) == ScanStep::Keep,
        scan_step(name, false, Some("cs"@)) == ScanStep::Keep,
        scan_step(name, false, Some("rb"@)) == ScanStep::Keep,
        scan_step(name, false, Some("php"@)) == ScanStep::Keep,
        scan_step(name, false, Some("swift"@)) == ScanStep::Keep,
        scan_step(name, false, Some("zig"@)) == ScanStep::Keep,
        scan_step(name, false, Some("lua"@)) == ScanStep::Keep,
        scan_step(name, false, Some("sh"@)) == ScanStep::Keep,
        scan_step(name, false, Some("bash"@)) == ScanStep::Keep,
        scan_step(name, false, Some("toml"@)) == ScanStep::Keep,
        scan_step(name, false, Some("yaml"@)) == ScanStep::Keep,
        scan_step(name, false, Some("yml"@)) == ScanStep::Keep,
        scan_step(name, false, Some("json"@)) == ScanStep::Keep,
        scan_step(name, false, Some("md"@)) == ScanStep::Keep,
        scan_step(name, false, Some("txt"@)) == ScanStep::Keep,
{
    assert(code_exts()[0] == "rs"@);
    assert(code_exts()[1] == "py"@);
    assert(code_exts()[2] == "js"@);
    assert(code_exts()[3] == "ts"@);
    assert(code_exts()[4] == "jsx"@);
    assert(code_exts()[5] == "tsx"@);
    assert(code_exts()[6] == "go"@);
    assert(code_exts()[7] == "c"@);
    assert(code_exts()[8] == "cpp"@);
    assert(code_exts()[9] == "h"@);
    assert(code_exts()[10] == "hpp"@);
    assert(code_exts()[11] == "java"@);
    assert(code_exts()[12] == "kt"@);
    assert(code_exts()[13] == "cs"@);
    assert(code_exts()[14] == "rb"@);
    assert(code_exts()[15] == "php"@);
    assert(code_exts()[16] == "swift"@);
    assert(code_exts()[17] == "zig"@);
    assert(code_exts()[18] == "lua"@);
    assert(code_exts()[19] == "sh"@);
    assert(code_exts()[20] == "bash"@);
    assert(code_exts()[21] == "toml"@);
    assert(code_exts()[22] == "yaml"@);
    assert(code_exts()[23] == "yml"@);
    assert(code_exts()[24] == "json"@);
    assert(code_exts()[25] == "md"@);
    assert(code_exts()[26] == "txt"@);
}

/// Hidden entries other than `.env` are never listed or entered, and the
/// build and tool directories are never entered.
pub proof fn lemma_skipped_entries(name: Seq<char>, is_dir: bool, ext: Option<Seq<char>>)
    ensures
        has_prefix(name, "."@) && name != ".env"@ ==> scan_step(name, is_dir, ext) == ScanStep::Skip,
        name == "target"@ || name == "node_modules"@ || name == "dist"@ || name == "build"@
            || name == "__pycache__"@ || name == "venv"@ ==> scan_step(name, true, ext)
            == ScanStep::Skip,
{
    assert(skip_dirs()[1] == "target"@);
    assert(skip_dirs()[2] == "node_modules"@);
    assert(skip_dirs()[4] == "dist"@);
    assert(skip_dirs()[5] == "build"@);
    assert(skip_dirs()[6] == "__pycache__"@);
    assert(skip_dirs()[8] == "venv"@);
}

fn one_of(words: &Vec<&str>, x: &str) -> (r: bool)
    ensures
        r == listed(Seq::new(words@.len(), |i: int| words@[i]@), x@),
{
    let ghost s = Seq::new(words@.len(), |i: int| words@[i]@);
    let mut i: usize = 0;
    while i < words.len()
        invariant
            i <= words.len(),
            s == Seq::new(words@.len(), |i: int| words@[i]@),
            forall|j: int| 0 <= j < i ==> s[j] != x@,
        decreases words.len() - i,
    {
        if same_text(words[i], x) {
            assert(s[i as int] == x@);
            return true;
        }
        i = i + 1;
    }
    false
}

fn code_ext_list() -> (r: Vec<&'static str>)
    ensures
        Seq::new(r@.len(), |i: int| r@[i]@) == code_exts(),
{
    let mut v: Vec<&'static str> = Vec::new();
    v.push("rs");
    v.push("py");
    v.push("js");
    v.push("ts");
    v.push("jsx");
    v.push("tsx");
    v.push("go");
    v.push("c");
    v.push("cpp");
    v.push("h");
    v.push("hpp");
    v.push("java");
    v.push("kt");
    v.push("cs");
    v.push("rb");
    v.push("php");
    v.push("swift");
    v.push("zig");
    v.push("lua");
    v.push("sh");
    v.push("bash");
    v.push("toml");
    v.push("yaml");
    v.push("yml");
    v.push("json");
    v.push("md");
    v.push("txt");
    assert(Seq::new(v@.len(), |i: int| v@[i]@) =~= code_exts());
    v
}

fn skip_dir_list() -> (r: Vec<&'static str>)
    ensures
        Seq::new(r@.len(), |i: int| r@[i]@) == skip_dirs(),
{
    let mut v: Vec<&'static str> = Vec::new();
    v.push(".git");
    v.push("target");
    v.push("node_modules");
    v.push(".cache");
    v.push("dist");
    v.push("build");
    v.push("__pycache__");
    v.push(".venv");
    v.push("venv");
    assert(Seq::new(v@.len(), |i: int| v@[i]@) =~= skip_dirs());
    v
}

/// Whether the scan reads a directory `depth` levels below the root: it
/// stops below [`MAX_SCAN_DEPTH`].
pub fn scan_depth_ok(depth: usize) -> (r: bool)
    ensures
        r == (depth <= MAX_SCAN_DEPTH),
{
    depth <= MAX_SCAN_DEPTH
}

/// The scan's decision for a directory entry with this name and, for a
/// file, this extension.
pub fn scan_decision(name: &str, is_dir: bool, ext: Option<&str>) -> (r: ScanStep)
    ensures
        r == scan_step(
            name@,
            is_dir,
            match ext {
                Some(x) => Some(x@),
                None => None,
            },
        ),
{
    let v = chars_of(name);
    let dot = chars_of(".");
    if crate::text::starts_with_chars(&v, &dot) && !same_text(name, ".env") {
        return ScanStep::Skip;
    }
    if is_dir {
        if one_of(&skip_dir_list(), name) {
            ScanStep::Skip
        } else {
            ScanStep::Descend
        }
    } else {
        let e = match ext {
            Some(x) => x,
            None => "",
        };
        proof {
            if ext is None {
                assert(e@ =~= Seq::<char>::empty()) by {
                    reveal_strlit("");
                }
            }
        }
        if one_of(&code_ext_list(), e) {
            ScanStep::Keep
        } else {
            ScanStep::Skip
        }
    }
}

// ─── Order of the list ──────────────────────────────────────────────────────

/// Lexicographic order of texts by character code, which is the byte order
/// of their UTF-8 encodings.
pub open spec fn chars_lt(a: Seq<char>, b: Seq<char>) -> bool
    decreases a.len(),
{
    if a.len() == 0 {
        b.len() > 0
    } else if b.len() == 0 {
        false
    } else if a[0] != b[0] {
        (a[0] as u32) < (b[0] as u32)
    } else {
        chars_lt(a.drop_first(), b.drop_first())
    }
}

/// Lexicographic order of segment lists.
pub open spec fn segs_lt(a: Seq<Seq<char>>, b: Seq<Seq<char>>) -> bool
    decreases a.len(),
{
    if a.len() == 0 {
        b.len() > 0
    } else if b.len() == 0 {
        false
    } else if a[0] != b[0] {
        chars_lt(a[0], b[0])
    } else {
        segs_lt(a.drop_first(), b.drop_first())
    }
}

/// The order of paths by their `/`-separated components, which is
/// `Path`'s order for the relative paths the scan produces.
pub open spec fn path_lt(a: Seq<char>, b: Seq<char>) -> bool {
    segs_lt(split_on(a, '/'), split_on(b, '/'))
}

/// No path comes after a later one.
pub open spec fn sorted_paths(s: Seq<Seq<char>>) -> bool {
    forall|i: int, j: int| 0 <= i < j < s.len() ==> !path_lt(#[trigger] s[j], #[trigger] s[i])
}

pub proof fn lemma_chars_lt_irreflexive(a: Seq<char>)
    ensures
        !chars_lt(a, a),
    decreases a.len(),
{
    if a.len() > 0 {
        lemma_chars_lt_irreflexive(a.drop_first());
    }
}

pub proof fn lemma_chars_lt_transitive(a: Seq<char>, b: Seq<char>, c: Seq<char>)
    requires
        chars_lt(a, b),
        chars_lt(b, c),
    ensures
        chars_lt(a, c),
    decreases a.len(),
{
    if a.len() > 0 && b.len() > 0 && c.len() > 0 {
        if a[0] == b[0] && b[0] == c[0] {
            lemma_chars_lt_transitive(a.drop_first(), b.drop_first(), c.drop_first());
        }
    }
}

pub proof fn lemma_segs_lt_irreflexive(a: Seq<Seq<char>>)
    ensures
        !segs_lt(a, a),
    decreases a.len(),
{
    if a.len() > 0 {
        lemma_segs_lt_irreflexive(a.drop_first());
    }
}

pub proof fn lemma_segs_lt_transitive(a: Seq<Seq<char>>, b: Seq<Seq<char>>, c: Seq<Seq<char>>)
    requires
        segs_lt(a, b),
        segs_lt(b, c),
    ensures
        segs_lt(a, c),
    decreases a.len(),
{
    if a.len() > 0 && b.len() > 0 && c.len() > 0 {
        if a[0] == b[0] && b[0] == c[0] {
            lemma_segs_lt_transitive(a.drop_first(), b.drop_first(), c.drop_first());
        } else if a[0] != b[0] && b[0] != c[0] {
            lemma_chars_lt_transitive(a[0], b[0], c[0]);
            if a[0] == c[0] {
                lemma_chars_lt_transitive(b[0], a[0], b[0]);
                lemma_chars_lt_irreflexive(b[0]);
            }
        } else if a[0] == b[0] {
        } else {
        }
    }
}

fn chars_less(a: &Vec<char>, b: &Vec<char>) -> (r: bool)
    ensures
        r == chars_lt(a@, b@),
{
    let mut i: usize = 0;
    assert(a@.skip(0) =~= a@);
    assert(b@.skip(0) =~= b@);
    while i < a.len() && i < b.len() && a[i] == b[i]
        invariant
            i <= a.len(),
            i <= b.len(),
            chars_lt(a@, b@) == chars_lt(a@.skip(i as int), b@.skip(i as int)),
        decreases a.len() - i,
    {
        assert(a@.skip(i as int).drop_first() =~= a@.skip(i + 1));
        assert(b@.skip(i as int).drop_first() =~= b@.skip(i + 1));
        i = i + 1;
    }
    if i == a.len() {
        i < b.len()
    } else if i == b.len() {
        false
    } else {
        (a[i] as u32) < (b[i] as u32)
    }
}

fn same_chars(a: &Vec<char>, b: &Vec<char>) -> (r: bool)
    ensures
        r == (a@ == b@),
{
    if a.len() != b.len() {
        return false;
    }
    let mut i: usize = 0;
    while i < a.len()
        invariant
            a.len() == b.len(),
            i <= a.len(),
            forall|j: int| 0 <= j < i ==> a@[j] == b@[j],
        decreases a.len() - i,
    {
        if a[i] != b[i] {
            return false;
        }
        i = i + 1;
    }
    assert(a@ =~= b@);
    true
}

/// Whether path `a` comes before path `b`.
pub fn path_less(a: &str, b: &str) -> (r: bool)
    ensures
        r == path_lt(a@, b@),
{
    let sa = split_chars(&chars_of(a), '/');
    let sb = split_chars(&chars_of(b), '/');
    let ghost ga = char_views(sa@);
    let ghost gb = char_views(sb@);
    let mut i: usize = 0;
    assert(ga.skip(0) =~= ga);
    assert(gb.skip(0) =~= gb);
    loop
        invariant
            i <= sa.len(),
            i <= sb.len(),
            ga == char_views(sa@),
            gb == char_views(sb@),
            ga == split_on(a@, '/'),
            gb == split_on(b@, '/'),
            segs_lt(ga, gb) == segs_lt(ga.skip(i as int), gb.skip(i as int)),
        decreases sa.len() - i,
    {
        if i == sa.len() {
            assert(ga.skip(i as int).len() == 0);
            return i < sb.len();
        }
        if i == sb.len() {
            assert(gb.skip(i as int).len() == 0);
            return false;
        }
        assert(ga.skip(i as int)[0] == sa@[i as int]@);
        assert(gb.skip(i as int)[0] == sb@[i as int]@);
        if !same_chars(&sa[i], &sb[i]) {
            return chars_less(&sa[i], &sb[i]);
        }
        assert(ga.skip(i as int).drop_first() =~= ga.skip(i + 1));
        assert(gb.skip(i as int).drop_first() =~= gb.skip(i + 1));
        i = i + 1;
    }
}

/// The paths in `Path` order (an insertion sort; equal paths keep no
/// particular order, being the same).
pub fn sort_paths(v: &Vec<String>) -> (r: Vec<String>)
    ensures
        sorted_paths(views(r@)),
        views(r@).to_multiset() == views(v@).to_multiset(),
{
    let ghost input = views(v@);
    let mut out: Vec<String> = Vec::new();
    let mut i: usize = 0;
    assert(views(out@) =~= input.take(0));
    while i < v.len()
        invariant
            i <= v.len(),
            input == views(v@),
            sorted_paths(views(out@)),
            views(out@).to_multiset() == input.take(i as int).to_multiset(),
        decreases v.len() - i,
    {
        let x = copy_string(&v[i]);
        let ghost o = views(out@);
        let mut p: usize = 0;
        while p < out.len() && !path_less(x.as_str(), out[p].as_str())
            invariant
                p <= out@.len(),
                o == views(out@),
                forall|k: int| 0 <= k < p ==> !path_lt(x@, #[trigger] o[k]),
            decreases out@.len() - p,
        {
            p = p + 1;
        }
        out.insert(p, x);
        let ghost n = views(out@);
        assert(n =~= o.insert(p as int, x@));
        proof {
            assert forall|a: int, b: int| 0 <= a < b < n.len() implies !path_lt(
                #[trigger] n[b],
                #[trigger] n[a],
            ) by {
                if b < p {
                    assert(n[a] == o[a] && n[b] == o[b]);
                } else if b == p {
                    assert(n[a] == o[a]);
                } else if a == p {
                    assert(n[b] == o[b - 1]);
                    if (p as int) < b - 1 {
                        assert(!path_lt(o[b - 1], o[p as int]));
                    }
                    assert(path_lt(x@, o[p as int]));
                    if path_lt(o[b - 1], x@) {
                        lemma_segs_lt_transitive(
                            split_on(o[b - 1], '/'),
                            split_on(x@, '/'),
                            split_on(o[p as int], '/'),
                        );
                        if b - 1 == p {
                            lemma_segs_lt_irreflexive(split_on(o[p as int], '/'));
                        }
                    }
                } else if a < p {
                    assert(n[a] == o[a] && n[b] == o[b - 1]);
                    assert(!path_lt(x@, o[a]));
                    if path_lt(o[b - 1], o[a]) {
                        assert(b - 1 > a);
                    }
                } else {
                    assert(n[a] == o[a - 1] && n[b] == o[b - 1]);
                }
            }
            assert(input.take(i + 1) =~= input.take(i as int).push(input[i as int]));
        }
        i = i + 1;
    }
    assert(input.take(i as int) =~= input);
    out
}

} // verus!
