use vstd::prelude::*;
use crate::text::{texts, unicode_lowercase};

verus! {

/// The filters of a scan: which files count as source code and which are left out.
pub struct ProjectConfig {
    /// Extensions (without the dot) or whole file names that count as source code.
    pub code_extensions: Vec<String>,
    /// Directory names that are never entered.
    pub ignore_dirs: Vec<String>,
    /// File names that are always skipped.
    pub ignore_files: Vec<String>,
    /// Extensions (without the dot) that are always skipped.
    pub ignore_extensions: Vec<String>,
    /// Files larger than this many bytes are skipped.
    pub max_file_size: u64,
}

/// Whether `items` holds the text `s`.
pub open spec fn lists(items: Vec<String>, s: Seq<char>) -> bool {
    texts(items@).contains(s)
}

/// An extension given on the command line, as the filters compare it: without leading dots,
/// in lowercase.
pub open spec fn normalized_extension(raw: Seq<char>) -> Seq<char> {
    unicode_lowercase(strip_leading_dots(raw))
}

/// `s` without its leading dots (`str::trim_start_matches('.')`).
pub open spec fn strip_leading_dots(s: Seq<char>) -> Seq<char>
    decreases s.len(),
{
    if s.len() > 0 && s[0] == '.' {
        strip_leading_dots(s.drop_first())
    } else {
        s
    }
}

/// `s[from..]` without its leading dots.
pub fn leading_dots_end(cs: &Vec<char>, from: usize) -> (r: usize)
    requires
        from <= cs.len(),
    ensures
        from <= r <= cs.len(),
        cs@.subrange(r as int, cs@.len() as int) == strip_leading_dots(
            cs@.subrange(from as int, cs@.len() as int),
        ),
{
    let mut i = from;
    while i < cs.len() && cs[i] == '.'
        invariant
            from <= i <= cs.len(),
            strip_leading_dots(cs@.subrange(from as int, cs@.len() as int)) == strip_leading_dots(
                cs@.subrange(i as int, cs@.len() as int),
            ),
        decreases cs.len() - i,
    {
        assert(cs@.subrange(i as int, cs@.len() as int).drop_first() =~= cs@.subrange(
            i + 1,
            cs@.len() as int,
        ));
        i = i + 1;
    }
    i
}

fn owned_list(items: &[&str]) -> (r: Vec<String>)
    ensures
        r@.len() == items@.len(),
        forall|j: int| 0 <= j < items@.len() ==> #[trigger] r@[j]@ == items@[j]@,
{
    let mut r: Vec<String> = Vec::new();
    let mut i: usize = 0;
    while i < items.len()
        invariant
            0 <= i <= items.len(),
            r@.len() == i,
            forall|j: int| 0 <= j < i ==> #[trigger] r@[j]@ == items@[j]@,
        decreases items.len() - i,
    {
        let s = items[i].to_owned();
        r.push(s);
        i = i + 1;
    }
    r
}

/// The example `.scanner-config.json` that the README refers to: copy it into a project's root
/// as `.scanner-config.json` and adapt it. Extensions are written without a leading dot.
pub const EXAMPLE_CONFIG: &'static str = "{
  \"code_extensions\": [\"rs\", \"toml\", \"md\", \"sh\"],
  \"ignore_dirs\": [\"vendor\", \"generated\"],
  \"ignore_files\": [\"pnpm-lock.yaml\", \".DS_Store\"],
  \"ignore_extensions\": [\"png\", \"jpg\", \"pdf\"],
  \"max_file_size\": 1048576
}
";

/// The texts of `items`, each once, in the order of their first occurrence: a list of names
/// read from a configuration file, as the set it stands for.
pub fn unique_texts(items: &Vec<String>) -> (r: Vec<String>)
    ensures
        texts(r@).no_duplicates(),
        texts(r@).to_set() == texts(items@).to_set(),
{
    let mut out: Vec<String> = Vec::new();
    let mut i: usize = 0;
    while i < items.len()
        invariant
            0 <= i <= items.len(),
            texts(out@).no_duplicates(),
            texts(out@).to_set() == texts(items@.take(i as int)).to_set(),
        decreases items.len() - i,
    {
        let ghost before = texts(out@);
        let ghost x = items@[i as int]@;
        let present = crate::text::contains_str(&out, items[i].as_str());
        if !present {
            out.push(items[i].clone());
        }
        proof {
            let after = texts(out@);
            let prev = texts(items@.take(i as int));
            let next = texts(items@.take(i + 1));
            assert(next =~= prev.push(x));
            if present {
                let k = choose|k: int| 0 <= k < out@.len() && #[trigger] out@[k]@ == x;
                assert(before[k] == x);
                assert(after == before);
            } else {
                assert(after =~= before.push(x));
                assert forall|k: int| 0 <= k < before.len() implies before[k] != x by {
                    assert(before[k] == out@[k]@);
                }
                assert forall|a: int, b: int|
                    0 <= a < after.len() && 0 <= b < after.len() && a != b implies after[a]
                    != after[b] by {
                    if a < before.len() && b < before.len() {
                        assert(after[a] == before[a] && after[b] == before[b]);
                    } else if a < before.len() {
                        assert(after[a] == before[a]);
                    } else if b < before.len() {
                        assert(after[b] == before[b]);
                    }
                }
            }
            assert forall|y: Seq<char>| after.to_set().contains(y) <==> next.to_set().contains(y) by {
                if after.contains(y) {
                    let k = choose|k: int| 0 <= k < after.len() && after[k] == y;
                    if k < before.len() {
                        assert(before[k] == y);
                        assert(before.to_set().contains(y));
                        let m = choose|m: int| 0 <= m < prev.len() && prev[m] == y;
                        assert(next[m] == y);
                    } else {
                        assert(next[i as int] == y);
                    }
                }
                if next.contains(y) {
                    let m = choose|m: int| 0 <= m < next.len() && next[m] == y;
                    if m < prev.len() {
                        assert(prev[m] == y);
                        assert(prev.to_set().contains(y));
                        assert(before.to_set().contains(y));
                        let k = choose|k: int| 0 <= k < before.len() && before[k] == y;
                        if present {
                            assert(after[k] == y);
                        } else {
                            assert(after[k] == y);
                        }
                    } else {
                        if present {
                            let k = choose|k: int| 0 <= k < out@.len() && #[trigger] out@[k]@ == x;
                            assert(after[k] == y);
                        } else {
                            assert(after[after.len() - 1] == y);
                        }
                    }
                }
            }
            assert(after.to_set() =~= next.to_set());
        }
        i = i + 1;
    }
    assert(items@.take(items.len() as int) =~= items@);
    out
}

/// The file size limit of the default filters: 1 MiB.
pub const DEFAULT_MAX_FILE_SIZE: u64 = 1048576;

/// The extensions and file names that count as code by default:
/// `rs`, `toml`, `md`, `txt`, `ts`, `tsx`, `js`, `jsx`, `mjs`, `cjs`, `json`, `yaml`, `yml`,
/// `html`, `css`, `scss`, `py`, `go`, `java`, `kt`, `swift`, `dart`, `rb`, `php`, `cs`, `c`,
/// `cpp`, `h`, `hpp`, `sh`, `bash`, `sql`, `csv`, `xml`, `tex`, `ipynb`, `dockerfile`, `makefile`.
pub open spec fn default_code_extensions() -> Seq<Seq<char>> {
    seq![
        seq!['r', 's'],
        seq!['t', 'o', 'm', 'l'],
        seq!['m', 'd'],
        seq!['t', 'x', 't'],
        seq!['t', 's'],
        seq!['t', 's', 'x'],
        seq!['j', 's'],
        seq!['j', 's', 'x'],
        seq!['m', 'j', 's'],
        seq!['c', 'j', 's'],
        seq!['j', 's', 'o', 'n'],
        seq!['y', 'a', 'm', 'l'],
        seq!['y', 'm', 'l'],
        seq!['h', 't', 'm', 'l'],
        seq!['c', 's', 's'],
        seq!['s', 'c', 's', 's'],
        seq!['p', 'y'],
        seq!['g', 'o'],
        seq!['j', 'a', 'v', 'a'],
        seq!['k', 't'],
        seq!['s', 'w', 'i', 'f', 't'],
        seq!['d', 'a', 'r', 't'],
        seq!['r', 'b'],
        seq!['p', 'h', 'p'],
        seq!['c', 's'],
        seq!['c'],
        seq!['c', 'p', 'p'],
        seq!['h'],
        seq!['h', 'p', 'p'],
        seq!['s', 'h'],
        seq!['b', 'a', 's', 'h'],
        seq!['s', 'q', 'l'],
        seq!['c', 's', 'v'],
        seq!['x', 'm', 'l'],
        seq!['t', 'e', 'x'],
        seq!['i', 'p', 'y', 'n', 'b'],
        seq!['d', 'o', 'c', 'k', 'e', 'r', 'f', 'i', 'l', 'e'],
        seq!['m', 'a', 'k', 'e', 'f', 'i', 'l', 'e'],
    ]
}

/// The directories never entered by default:
/// `node_modules`, `target`, `.git`, `dist`, `build`, `__pycache__`, `.idea`, `.vscode`, `venv`,
/// `.venv`.
pub open spec fn default_ignore_dirs() -> Seq<Seq<char>> {
    seq![
        seq!['n', 'o', 'd', 'e', '_', 'm', 'o', 'd', 'u', 'l', 'e', 's'],
        seq!['t', 'a', 'r', 'g', 'e', 't'],
        seq!['.', 'g', 'i', 't'],
        seq!['d', 'i', 's', 't'],
        seq!['b', 'u', 'i', 'l', 'd'],
        seq!['_', '_', 'p', 'y', 'c', 'a', 'c', 'h', 'e', '_', '_'],
        seq!['.', 'i', 'd', 'e', 'a'],
        seq!['.', 'v', 's', 'c', 'o', 'd', 'e'],
        seq!['v', 'e', 'n', 'v'],
        seq!['.', 'v', 'e', 'n', 'v'],
    ]
}

/// The file names skipped by default:
/// `package-lock.json`, `yarn.lock`, `pnpm-lock.yaml`, `cargo.lock`, `.ds_store`.
pub open spec fn default_ignore_files() -> Seq<Seq<char>> {
    seq![
        seq!['p', 'a', 'c', 'k', 'a', 'g', 'e', '-', 'l', 'o', 'c', 'k', '.', 'j', 's', 'o', 'n'],
        seq!['y', 'a', 'r', 'n', '.', 'l', 'o', 'c', 'k'],
        seq!['p', 'n', 'p', 'm', '-', 'l', 'o', 'c', 'k', '.', 'y', 'a', 'm', 'l'],
        seq!['c', 'a', 'r', 'g', 'o', '.', 'l', 'o', 'c', 'k'],
        seq!['.', 'd', 's', '_', 's', 't', 'o', 'r', 'e'],
    ]
}

/// The extensions skipped by default:
/// `png`, `jpg`, `jpeg`, `gif`, `bmp`, `ico`, `pdf`, `zip`, `gz`, `tar`, `7z`, `rar`, `exe`,
/// `dll`, `so`, `dylib`, `bin`, `class`, `jar`, `o`, `a`, `woff`, `woff2`, `ttf`, `mp3`, `mp4`,
/// `mov`, `lock`.
pub open spec fn default_ignore_extensions() -> Seq<Seq<char>> {
    seq![
        seq!['p', 'n', 'g'],
        seq!['j', 'p', 'g'],
        seq!['j', 'p', 'e', 'g'],
        seq!['g', 'i', 'f'],
        seq!['b', 'm', 'p'],
        seq!['i', 'c', 'o'],
        seq!['p', 'd', 'f'],
        seq!['z', 'i', 'p'],
        seq!['g', 'z'],
        seq!['t', 'a', 'r'],
        seq!['7', 'z'],
        seq!['r', 'a', 'r'],
        seq!['e', 'x', 'e'],
        seq!['d', 'l', 'l'],
        seq!['s', 'o'],
        seq!['d', 'y', 'l', 'i', 'b'],
        seq!['b', 'i', 'n'],
        seq!['c', 'l', 'a', 's', 's'],
        seq!['j', 'a', 'r'],
        seq!['o'],
        seq!['a'],
        seq!['w', 'o', 'f', 'f'],
        seq!['w', 'o', 'f', 'f', '2'],
        seq!['t', 't', 'f'],
        seq!['m', 'p', '3'],
        seq!['m', 'p', '4'],
        seq!['m', 'o', 'v'],
        seq!['l', 'o', 'c', 'k'],
    ]
}

/// The default code list, as strings.
fn default_code_list() -> (r: Vec<String>)
    ensures
        texts(r@) == default_code_extensions(),
{
    let r = owned_list(&["rs", "toml", "md", "txt", "ts", "tsx", "js", "jsx", "mjs", "cjs", "json", "yaml", "yml", "html", "css", "scss", "py", "go", "java", "kt", "swift", "dart", "rb", "php", "cs", "c", "cpp", "h", "hpp", "sh", "bash", "sql", "csv", "xml", "tex", "ipynb", "dockerfile", "makefile"]);
    proof {
        reveal_strlit("rs");
        assert("rs"@ =~= seq!['r', 's']);
        reveal_strlit("toml");
        assert("toml"@ =~= seq!['t', 'o', 'm', 'l']);
        reveal_strlit("md");
        assert("md"@ =~= seq!['m', 'd']);
        reveal_strlit("txt");
        assert("txt"@ =~= seq!['t', 'x', 't']);
        reveal_strlit("ts");
        assert("ts"@ =~= seq!['t', 's']);
        reveal_strlit("tsx");
        assert("tsx"@ =~= seq!['t', 's', 'x']);
        reveal_strlit("js");
        assert("js"@ =~= seq!['j', 's']);
        reveal_strlit("jsx");
        assert("jsx"@ =~= seq!['j', 's', 'x']);
        reveal_strlit("mjs");
        assert("mjs"@ =~= seq!['m', 'j', 's']);
        reveal_strlit("cjs");
        assert("cjs"@ =~= seq!['c', 'j', 's']);
        reveal_strlit("json");
        assert("json"@ =~= seq!['j', 's', 'o', 'n']);
        reveal_strlit("yaml");
        assert("yaml"@ =~= seq!['y', 'a', 'm', 'l']);
        reveal_strlit("yml");
        assert("yml"@ =~= seq!['y', 'm', 'l']);
        reveal_strlit("html");
        assert("html"@ =~= seq!['h', 't', 'm', 'l']);
        reveal_strlit("css");
        assert("css"@ =~= seq!['c', 's', 's']);
        reveal_strlit("scss");
        assert("scss"@ =~= seq!['s', 'c', 's', 's']);
        reveal_strlit("py");
        assert("py"@ =~= seq!['p', 'y']);
        reveal_strlit("go");
        assert("go"@ =~= seq!['g', 'o']);
        reveal_strlit("java");
        assert("java"@ =~= seq!['j', 'a', 'v', 'a']);
        reveal_strlit("kt");
        assert("kt"@ =~= seq!['k', 't']);
        reveal_strlit("swift");
        assert("swift"@ =~= seq!['s', 'w', 'i', 'f', 't']);
        reveal_strlit("dart");
        assert("dart"@ =~= seq!['d', 'a', 'r', 't']);
        reveal_strlit("rb");
        assert("rb"@ =~= seq!['r', 'b']);
        reveal_strlit("php");
        assert("php"@ =~= seq!['p', 'h', 'p']);
        reveal_strlit("cs");
        assert("cs"@ =~= seq!['c', 's']);
        reveal_strlit("c");
        assert("c"@ =~= seq!['c']);
        reveal_strlit("cpp");
        assert("cpp"@ =~= seq!['c', 'p', 'p']);
        reveal_strlit("h");
        assert("h"@ =~= seq!['h']);
        reveal_strlit("hpp");
        assert("hpp"@ =~= seq!['h', 'p', 'p']);
        reveal_strlit("sh");
        assert("sh"@ =~= seq!['s', 'h']);
        reveal_strlit("bash");
        assert("bash"@ =~= seq!['b', 'a', 's', 'h']);
        reveal_strlit("sql");
        assert("sql"@ =~= seq!['s', 'q', 'l']);
        reveal_strlit("csv");
        assert("csv"@ =~= seq!['c', 's', 'v']);
        reveal_strlit("xml");
        assert("xml"@ =~= seq!['x', 'm', 'l']);
        reveal_strlit("tex");
        assert("tex"@ =~= seq!['t', 'e', 'x']);
        reveal_strlit("ipynb");
        assert("ipynb"@ =~= seq!['i', 'p', 'y', 'n', 'b']);
        reveal_strlit("dockerfile");
        assert("dockerfile"@ =~= seq!['d', 'o', 'c', 'k', 'e', 'r', 'f', 'i', 'l', 'e']);
        reveal_strlit("makefile");
        assert("makefile"@ =~= seq!['m', 'a', 'k', 'e', 'f', 'i', 'l', 'e']);
    }
    assert(texts(r@) =~= default_code_extensions());
    r
}

/// The default ignored directories, as strings.
fn default_dir_list() -> (r: Vec<String>)
    ensures
        texts(r@) == default_ignore_dirs(),
{
    let r = owned_list(&["node_modules", "target", ".git", "dist", "build", "__pycache__", ".idea", ".vscode", "venv", ".venv"]);
    proof {
        reveal_strlit("node_modules");
        assert("node_modules"@ =~= seq!['n', 'o', 'd', 'e', '_', 'm', 'o', 'd', 'u', 'l', 'e', 's']);
        reveal_strlit("target");
        assert("target"@ =~= seq!['t', 'a', 'r', 'g', 'e', 't']);
        reveal_strlit(".git");
        assert(".git"@ =~= seq!['.', 'g', 'i', 't']);
        reveal_strlit("dist");
        assert("dist"@ =~= seq!['d', 'i', 's', 't']);
        reveal_strlit("build");
        assert("build"@ =~= seq!['b', 'u', 'i', 'l', 'd']);
        reveal_strlit("__pycache__");
        assert("__pycache__"@ =~= seq!['_', '_', 'p', 'y', 'c', 'a', 'c', 'h', 'e', '_', '_']);
        reveal_strlit(".idea");
        assert(".idea"@ =~= seq!['.', 'i', 'd', 'e', 'a']);
        reveal_strlit(".vscode");
        assert(".vscode"@ =~= seq!['.', 'v', 's', 'c', 'o', 'd', 'e']);
        reveal_strlit("venv");
        assert("venv"@ =~= seq!['v', 'e', 'n', 'v']);
        reveal_strlit(".venv");
        assert(".venv"@ =~= seq!['.', 'v', 'e', 'n', 'v']);
    }
    assert(texts(r@) =~= default_ignore_dirs());
    r
}

/// The default ignored file names, as strings.
fn default_file_list() -> (r: Vec<String>)
    ensures
        texts(r@) == default_ignore_files(),
{
    let r = owned_list(&["package-lock.json", "yarn.lock", "pnpm-lock.yaml", "cargo.lock", ".ds_store"]);
    proof {
        reveal_strlit("package-lock.json");
        assert("package-lock.json"@ =~= seq!['p', 'a', 'c', 'k', 'a', 'g', 'e', '-', 'l', 'o', 'c', 'k', '.', 'j', 's', 'o', 'n']);
        reveal_strlit("yarn.lock");
        assert("yarn.lock"@ =~= seq!['y', 'a', 'r', 'n', '.', 'l', 'o', 'c', 'k']);
        reveal_strlit("pnpm-lock.yaml");
        assert("pnpm-lock.yaml"@ =~= seq!['p', 'n', 'p', 'm', '-', 'l', 'o', 'c', 'k', '.', 'y', 'a', 'm', 'l']);
        reveal_strlit("cargo.lock");
        assert("cargo.lock"@ =~= seq!['c', 'a', 'r', 'g', 'o', '.', 'l', 'o', 'c', 'k']);
        reveal_strlit(".ds_store");
        assert(".ds_store"@ =~= seq!['.', 'd', 's', '_', 's', 't', 'o', 'r', 'e']);
    }
    assert(texts(r@) =~= default_ignore_files());
    r
}

/// The default ignored extensions, as strings.
fn default_extension_list() -> (r: Vec<String>)
    ensures
        texts(r@) == default_ignore_extensions(),
{
    let r = owned_list(&["png", "jpg", "jpeg", "gif", "bmp", "ico", "pdf", "zip", "gz", "tar", "7z", "rar", "exe", "dll", "so", "dylib", "bin", "class", "jar", "o", "a", "woff", "woff2", "ttf", "mp3", "mp4", "mov", "lock"]);
    proof {
        reveal_strlit("png");
        assert("png"@ =~= seq!['p', 'n', 'g']);
        reveal_strlit("jpg");
        assert("jpg"@ =~= seq!['j', 'p', 'g']);
        reveal_strlit("jpeg");
        assert("jpeg"@ =~= seq!['j', 'p', 'e', 'g']);
        reveal_strlit("gif");
        assert("gif"@ =~= seq!['g', 'i', 'f']);
        reveal_strlit("bmp");
        assert("bmp"@ =~= seq!['b', 'm', 'p']);
        reveal_strlit("ico");
        assert("ico"@ =~= seq!['i', 'c', 'o']);
        reveal_strlit("pdf");
        assert("pdf"@ =~= seq!['p', 'd', 'f']);
        reveal_strlit("zip");
        assert("zip"@ =~= seq!['z', 'i', 'p']);
        reveal_strlit("gz");
        assert("gz"@ =~= seq!['g', 'z']);
        reveal_strlit("tar");
        assert("tar"@ =~= seq!['t', 'a', 'r']);
        reveal_strlit("7z");
        assert("7z"@ =~= seq!['7', 'z']);
        reveal_strlit("rar");
        assert("rar"@ =~= seq!['r', 'a', 'r']);
        reveal_strlit("exe");
        assert("exe"@ =~= seq!['e', 'x', 'e']);
        reveal_strlit("dll");
        assert("dll"@ =~= seq!['d', 'l', 'l']);
        reveal_strlit("so");
        assert("so"@ =~= seq!['s', 'o']);
        reveal_strlit("dylib");
        assert("dylib"@ =~= seq!['d', 'y', 'l', 'i', 'b']);
        reveal_strlit("bin");
        assert("bin"@ =~= seq!['b', 'i', 'n']);
        reveal_strlit("class");
        assert("class"@ =~= seq!['c', 'l', 'a', 's', 's']);
        reveal_strlit("jar");
        assert("jar"@ =~= seq!['j', 'a', 'r']);
        reveal_strlit("o");
        assert("o"@ =~= seq!['o']);
        reveal_strlit("a");
        assert("a"@ =~= seq!['a']);
        reveal_strlit("woff");
        assert("woff"@ =~= seq!['w', 'o', 'f', 'f']);
        reveal_strlit("woff2");
        assert("woff2"@ =~= seq!['w', 'o', 'f', 'f', '2']);
        reveal_strlit("ttf");
        assert("ttf"@ =~= seq!['t', 't', 'f']);
        reveal_strlit("mp3");
        assert("mp3"@ =~= seq!['m', 'p', '3']);
        reveal_strlit("mp4");
        assert("mp4"@ =~= seq!['m', 'p', '4']);
        reveal_strlit("mov");
        assert("mov"@ =~= seq!['m', 'o', 'v']);
        reveal_strlit("lock");
        assert("lock"@ =~= seq!['l', 'o', 'c', 'k']);
    }
    assert(texts(r@) =~= default_ignore_extensions());
    r
}

/// No entry of `s` from position `j` on equals the entry at `k`.
spec fn none_equal_from(s: Seq<Seq<char>>, k: int, j: int) -> bool
    decreases s.len() - j,
{
    j >= s.len() || ((s[j].len() != s[k].len() || (s[j].len() > 0 && s[j][0] != s[k][0])
        || s[j] != s[k]) && none_equal_from(s, k, j + 1))
}

/// No entry of `s` from position `k` on occurs again after it.
spec fn distinct_from(s: Seq<Seq<char>>, k: int) -> bool
    decreases s.len() - k,
{
    k >= s.len() || (none_equal_from(s, k, k + 1) && distinct_from(s, k + 1))
}

proof fn lemma_none_equal_from(s: Seq<Seq<char>>, k: int, j: int, x: int)
    requires
        0 <= j,
        none_equal_from(s, k, j),
        j <= x < s.len(),
    ensures
        s[x] != s[k],
    decreases s.len() - j,
{
    if j < x {
        lemma_none_equal_from(s, k, j + 1, x);
    }
}

proof fn lemma_distinct_from(s: Seq<Seq<char>>, k: int, a: int, b: int)
    requires
        0 <= k,
        distinct_from(s, k),
        k <= a < b < s.len(),
    ensures
        s[a] != s[b],
    decreases s.len() - k,
{
    if k < a {
        lemma_distinct_from(s, k + 1, a, b);
    } else {
        lemma_none_equal_from(s, a, a + 1, b);
    }
}

proof fn lemma_distinct_no_duplicates(s: Seq<Seq<char>>)
    requires
        distinct_from(s, 0),
    ensures
        s.no_duplicates(),
{
    assert forall|a: int, b: int| 0 <= a < s.len() && 0 <= b < s.len() && a != b implies s[a]
        != s[b] by {
        if a < b {
            lemma_distinct_from(s, 0, a, b);
        } else {
            lemma_distinct_from(s, 0, b, a);
        }
    }
}

proof fn lemma_default_code_extensions_distinct()
    ensures
        default_code_extensions().no_duplicates(),
{
    reveal_with_fuel(distinct_from, 40);
    reveal_with_fuel(none_equal_from, 40);
    assert(distinct_from(default_code_extensions(), 0));
    lemma_distinct_no_duplicates(default_code_extensions());
}

proof fn lemma_default_ignore_dirs_distinct()
    ensures
        default_ignore_dirs().no_duplicates(),
{
    reveal_with_fuel(distinct_from, 40);
    reveal_with_fuel(none_equal_from, 40);
    assert(distinct_from(default_ignore_dirs(), 0));
    lemma_distinct_no_duplicates(default_ignore_dirs());
}

proof fn lemma_default_ignore_files_distinct()
    ensures
        default_ignore_files().no_duplicates(),
{
    reveal_with_fuel(distinct_from, 40);
    reveal_with_fuel(none_equal_from, 40);
    assert(distinct_from(default_ignore_files(), 0));
    lemma_distinct_no_duplicates(default_ignore_files());
}

proof fn lemma_default_ignore_extensions_distinct()
    ensures
        default_ignore_extensions().no_duplicates(),
{
    reveal_with_fuel(distinct_from, 40);
    reveal_with_fuel(none_equal_from, 40);
    assert(distinct_from(default_ignore_extensions(), 0));
    lemma_distinct_no_duplicates(default_ignore_extensions());
}

impl Default for ProjectConfig {
    /// The default filters: common source, configuration and documentation extensions count as
    /// code; dependency, build and tool directories, lock files and binary or media extensions
    /// are skipped; files over 1 MiB are skipped.
    fn default() -> (r: ProjectConfig)
        ensures
            texts(r.code_extensions@) == default_code_extensions(),
            texts(r.ignore_dirs@) == default_ignore_dirs(),
            texts(r.ignore_files@) == default_ignore_files(),
            texts(r.ignore_extensions@) == default_ignore_extensions(),
            r.max_file_size == DEFAULT_MAX_FILE_SIZE,
            r.wf(),
    {
        proof {
            lemma_default_code_extensions_distinct();
            lemma_default_ignore_dirs_distinct();
            lemma_default_ignore_files_distinct();
            lemma_default_ignore_extensions_distinct();
        }
        ProjectConfig {
            code_extensions: default_code_list(),
            ignore_dirs: default_dir_list(),
            ignore_files: default_file_list(),
            ignore_extensions: default_extension_list(),
            max_file_size: DEFAULT_MAX_FILE_SIZE,
        }
    }
}

impl ProjectConfig {
    /// Each list names every entry once, as the sets of names they stand for.
    pub open spec fn wf(&self) -> bool {
        &&& texts(self.code_extensions@).no_duplicates()
        &&& texts(self.ignore_dirs@).no_duplicates()
        &&& texts(self.ignore_files@).no_duplicates()
        &&& texts(self.ignore_extensions@).no_duplicates()
    }

    /// Replaces each list that `overrides` gives non-empty, and the size limit when it is not
    /// zero.
    pub fn apply_overrides(&mut self, overrides: ProjectConfig)
        ensures
            final(self).code_extensions@ == if overrides.code_extensions.len() > 0 {
                overrides.code_extensions@
            } else {
                old(self).code_extensions@
            },
            final(self).ignore_dirs@ == if overrides.ignore_dirs.len() > 0 {
                overrides.ignore_dirs@
            } else {
                old(self).ignore_dirs@
            },
            final(self).ignore_files@ == if overrides.ignore_files.len() > 0 {
                overrides.ignore_files@
            } else {
                old(self).ignore_files@
            },
            final(self).ignore_extensions@ == if overrides.ignore_extensions.len() > 0 {
                overrides.ignore_extensions@
            } else {
                old(self).ignore_extensions@
            },
            final(self).max_file_size == if overrides.max_file_size > 0 {
                overrides.max_file_size
            } else {
                old(self).max_file_size
            },
            old(self).wf() && overrides.wf() ==> final(self).wf(),
    {
        if overrides.code_extensions.len() > 0 {
            self.code_extensions = overrides.code_extensions;
        }
        if overrides.ignore_dirs.len() > 0 {
            self.ignore_dirs = overrides.ignore_dirs;
        }
        if overrides.ignore_files.len() > 0 {
            self.ignore_files = overrides.ignore_files;
        }
        if overrides.ignore_extensions.len() > 0 {
            self.ignore_extensions = overrides.ignore_extensions;
        }
        if overrides.max_file_size > 0 {
            self.max_file_size = overrides.max_file_size;
        }
    }

    /// Adds the extensions given on the command line to the skipped ones, each without its
    /// leading dots and in lowercase; the other filters are unchanged.
    pub fn ignore_extensions(&mut self, extensions: &Vec<String>)
        ensures
            final(self).code_extensions == old(self).code_extensions,
            final(self).ignore_dirs == old(self).ignore_dirs,
            final(self).ignore_files == old(self).ignore_files,
            final(self).max_file_size == old(self).max_file_size,
            forall|s: Seq<char>|
                lists(final(self).ignore_extensions, s) <==> (lists(old(self).ignore_extensions, s)
                    || exists|i: int|
                    0 <= i < extensions.len() && s == normalized_extension(
                        #[trigger] extensions@[i]@,
                    )),
            old(self).wf() ==> final(self).wf(),
    {
        let mut i: usize = 0;
        while i < extensions.len()
            invariant
                0 <= i <= extensions.len(),
                self.code_extensions == old(self).code_extensions,
                self.ignore_dirs == old(self).ignore_dirs,
                self.ignore_files == old(self).ignore_files,
                self.max_file_size == old(self).max_file_size,
                forall|s: Seq<char>|
                    lists(self.ignore_extensions, s) <==> (lists(old(self).ignore_extensions, s)
                        || exists|j: int|
                        0 <= j < i && s == normalized_extension(#[trigger] extensions@[j]@)),
                old(self).wf() ==> self.wf(),
            decreases extensions.len() - i,
        {
            let cs = crate::text::chars_of(extensions[i].as_str());
            let start = leading_dots_end(&cs, 0);
            let bare = crate::text::string_from_range(&cs, start, cs.len());
            assert(cs@.subrange(0, cs@.len() as int) =~= extensions@[i as int]@);
            let lowered = crate::text::to_lowercase(bare.as_str());
            let ghost n = lowered@;
            assert(n == normalized_extension(extensions@[i as int]@));
            let ghost before = texts(self.ignore_extensions@);
            let present = crate::text::contains_str(&self.ignore_extensions, lowered.as_str());
            proof {
                if present {
                    let k = choose|k: int|
                        0 <= k < self.ignore_extensions@.len() && #[trigger] self.ignore_extensions@[k]@
                            == n;
                    assert(before[k] == n);
                } else {
                    assert forall|k: int| 0 <= k < before.len() implies before[k] != n by {
                        assert(before[k] == self.ignore_extensions@[k]@);
                    }
                }
            }
            if !present {
                self.ignore_extensions.push(lowered);
            }
            proof {
                let after = texts(self.ignore_extensions@);
                if !present {
                    assert(after =~= before.push(n));
                    if old(self).wf() {
                        assert forall|a: int, b: int|
                            0 <= a < after.len() && 0 <= b < after.len() && a != b implies after[a]
                            != after[b] by {
                            if a < before.len() && b < before.len() {
                                assert(after[a] == before[a] && after[b] == before[b]);
                            } else if a < before.len() {
                                assert(after[a] == before[a]);
                            } else if b < before.len() {
                                assert(after[b] == before[b]);
                            }
                        }
                    }
                } else {
                    assert(after == before);
                }
                assert forall|x: Seq<char>| after.contains(x) <==> (before.contains(x) || x == n) by {
                    if !present {
                        if after.contains(x) {
                            let k = choose|k: int| 0 <= k < after.len() && after[k] == x;
                            if k < before.len() {
                                assert(before[k] == x);
                            }
                        }
                        if before.contains(x) {
                            let k = choose|k: int| 0 <= k < before.len() && before[k] == x;
                            assert(after[k] == x);
                        }
                        if x == n {
                            assert(after[after.len() - 1] == x);
                        }
                    }
                }
                assert forall|x: Seq<char>|
                    lists(self.ignore_extensions, x) <==> (lists(old(self).ignore_extensions, x)
                        || exists|j: int|
                        0 <= j < i + 1 && x == normalized_extension(
                            #[trigger] extensions@[j]@,
                        )) by {
                    let old_side = lists(old(self).ignore_extensions, x) || exists|j: int|
                        0 <= j < i && x == normalized_extension(#[trigger] extensions@[j]@);
                    assert(before.contains(x) == old_side);
                    if exists|j: int|
                        0 <= j < i + 1 && x == normalized_extension(#[trigger] extensions@[j]@) {
                        let j = choose|j: int|
                            0 <= j < i + 1 && x == normalized_extension(
                                #[trigger] extensions@[j]@,
                            );
                        if j < i {
                            assert(old_side);
                        }
                    }
                }
            }
            i = i + 1;
        }
    }
}

} // verus!
