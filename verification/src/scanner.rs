use vstd::prelude::*;
use crate::config::{lists, ProjectConfig};
use crate::ranking::{
    count_at_least, keep_top, keys_of, lemma_count_at_least, lemma_ranked_insert_sorted, ranked_insert,
    sorted_desc, top_insert, top_len, top_count, top_all, ranked_all, law_top_list_is_top_of_all, views, name_position, lemma_name_position, names_unique,
    NamedOrder, name_fn, sort_by_order, strictly_ordered, sum_of, lemma_sum_bound, lemma_sum_push,
    lemma_sum_update, lemma_sum_permutation,
};
use crate::text::{
    chars_of, lines, push_all, push_char, str_eq, texts, text_lt, unicode_lowercase, decimal,
    lemma_text_lt_irreflexive, lemma_text_lt_transitive, lemma_text_lt_total,
};

verus! {

broadcast use vstd::seq_lib::group_seq_properties;

// ---------------------------------------------------------------------------
// File names
// ---------------------------------------------------------------------------

/// How many trailing characters of `s` are not a `.`.
pub open spec fn after_last_dot(s: Seq<char>) -> nat
    decreases s.len(),
{
    if s.len() == 0 || s.last() == '.' {
        0
    } else {
        1 + after_last_dot(s.drop_last())
    }
}

/// The extension of a file name as `Path::extension` gives it: the text after the last `.`;
/// none when there is no `.`, when the only `.` opens the name, or for `..`.
pub open spec fn name_extension(name: Seq<char>) -> Option<Seq<char>> {
    let tail = after_last_dot(name);
    if tail >= name.len() || tail + 1 == name.len() || name == seq!['.', '.'] {
        None
    } else {
        Some(name.skip(name.len() - tail))
    }
}

/// The extension of a file name as the filters compare it: lowercase, empty when none.
pub open spec fn compared_extension(name: Seq<char>) -> Seq<char> {
    match name_extension(name) {
        Some(ext) => unicode_lowercase(ext),
        None => seq![],
    }
}

/// The file name as the filters compare it: lowercase.
pub open spec fn compared_name(name: Seq<char>) -> Seq<char> {
    unicode_lowercase(name)
}

/// The extension of the file name `name` (see `name_extension`), as a string.
pub fn file_extension(name: &str) -> (r: Option<String>)
    ensures
        crate::i18n::opt_text(r) == name_extension(name@),
{
    let cs = chars_of(name);
    let mut k = cs.len();
    while k > 0 && cs[k - 1] != '.'
        invariant
            k <= cs.len(),
            cs@ == name@,
            after_last_dot(name@) == (cs.len() - k) + after_last_dot(cs@.take(k as int)),
        decreases k,
    {
        assert(cs@.take(k as int).drop_last() =~= cs@.take(k - 1));
        k = k - 1;
    }
    assert(cs@.take(cs.len() as int) =~= name@);
    let two_dots = cs.len() == 2 && cs[0] == '.' && cs[1] == '.';
    proof {
        if name@ == seq!['.', '.'] {
            assert(cs@[1] == '.');
        }
        if two_dots {
            assert(cs@ =~= seq!['.', '.']);
        }
    }
    if k <= 1 || two_dots {
        return None;
    }
    assert(cs@.subrange(k as int, cs@.len() as int) =~= name@.skip(k as int));
    Some(crate::text::string_from_range(&cs, k, cs.len()))
}

/// The lowercase file name and lowercase extension (empty when none) that the filters compare.
pub fn compared_name_and_extension(name: &str) -> (r: (String, String))
    ensures
        r.0@ == compared_name(name@),
        r.1@ == compared_extension(name@),
{
    let lowered = crate::text::to_lowercase(name);
    let ext = match file_extension(name) {
        Some(e) => crate::text::to_lowercase(e.as_str()),
        None => String::new(),
    };
    (lowered, ext)
}

// ---------------------------------------------------------------------------
// Filters
// ---------------------------------------------------------------------------

/// Why a file was left out of a scan.
pub enum SkipReason {
    IgnoredFile,
    HiddenFile,
    IgnoredExtension,
    UnsupportedExtension,
    MetadataError,
    OverMaxFileSize,
    BinaryFile,
    ReadError,
    WalkError,
}

/// The label under which a reason is counted.
pub open spec fn reason_label(r: SkipReason) -> Seq<char> {
    match r {
        SkipReason::IgnoredFile => "ignored file"@,
        SkipReason::HiddenFile => "hidden file"@,
        SkipReason::IgnoredExtension => "ignored extension"@,
        SkipReason::UnsupportedExtension => "unsupported extension"@,
        SkipReason::MetadataError => "metadata error"@,
        SkipReason::OverMaxFileSize => "over max file size"@,
        SkipReason::BinaryFile => "binary file"@,
        SkipReason::ReadError => "read error"@,
        SkipReason::WalkError => "walk error"@,
    }
}

impl SkipReason {
    /// The label under which this reason is counted (e.g. "binary file").
    pub fn label(&self) -> (r: &'static str)
        ensures
            r@ == reason_label(*self),
    {
        match self {
            SkipReason::IgnoredFile => "ignored file",
            SkipReason::HiddenFile => "hidden file",
            SkipReason::IgnoredExtension => "ignored extension",
            SkipReason::UnsupportedExtension => "unsupported extension",
            SkipReason::MetadataError => "metadata error",
            SkipReason::OverMaxFileSize => "over max file size",
            SkipReason::BinaryFile => "binary file",
            SkipReason::ReadError => "read error",
            SkipReason::WalkError => "walk error",
        }
    }
}

/// A hidden file (name starting with `.`) is scanned only when the code list names it, with or
/// without its leading dots.
pub open spec fn hidden_whitelisted(config: ProjectConfig, name: Seq<char>) -> bool {
    let trimmed = crate::config::strip_leading_dots(name);
    lists(config.code_extensions, name) || (trimmed.len() > 0 && lists(
        config.code_extensions,
        trimmed,
    ))
}

/// The verdict of the filters on a file from its lowercase name and extension, before its size
/// and contents are looked at: skipped names first, then (when `check_hidden`) hidden files,
/// then skipped extensions, then extensions that are not code unless the whole name is listed.
pub open spec fn name_verdict(
    config: ProjectConfig,
    name: Seq<char>,
    ext: Seq<char>,
    check_hidden: bool,
) -> Option<SkipReason> {
    if lists(config.ignore_files, name) {
        Some(SkipReason::IgnoredFile)
    } else if check_hidden && name.len() > 0 && name[0] == '.' && !hidden_whitelisted(
        config,
        name,
    ) {
        Some(SkipReason::HiddenFile)
    } else if lists(config.ignore_extensions, ext) {
        Some(SkipReason::IgnoredExtension)
    } else if ext.len() > 0 && !lists(config.code_extensions, ext) && !lists(
        config.code_extensions,
        name,
    ) {
        Some(SkipReason::UnsupportedExtension)
    } else {
        None
    }
}

/// Whether `items` names `s`.
pub(crate) fn listed(items: &Vec<String>, s: &str) -> (r: bool)
    ensures
        r == texts(items@).contains(s@),
{
    let r = crate::text::contains_str(items, s);
    proof {
        if r {
            let i = choose|i: int| 0 <= i < items@.len() && #[trigger] items@[i]@ == s@;
            assert(texts(items@)[i] == s@);
        }
        if texts(items@).contains(s@) {
            let i = choose|i: int| 0 <= i < texts(items@).len() && texts(items@)[i] == s@;
            assert(items@[i]@ == s@);
        }
    }
    r
}

/// Whether an entry's lowercase name is a directory name that is never entered.
pub fn is_ignored_dir(config: &ProjectConfig, name: &str) -> (r: bool)
    ensures
        r == lists(config.ignore_dirs, name@),
{
    listed(&config.ignore_dirs, name)
}

/// The verdict of the filters on a file from its lowercase name and extension (see
/// `name_verdict`).
pub fn classify_name(config: &ProjectConfig, name: &str, ext: &str, check_hidden: bool) -> (r:
    Option<SkipReason>)
    ensures
        r == name_verdict(*config, name@, ext@, check_hidden),
{
    if listed(&config.ignore_files, name) {
        return Some(SkipReason::IgnoredFile);
    }
    if check_hidden {
        let cs = chars_of(name);
        if cs.len() > 0 && cs[0] == '.' {
            let start = crate::config::leading_dots_end(&cs, 0);
            let trimmed = crate::text::string_from_range(&cs, start, cs.len());
            assert(cs@.subrange(0, cs@.len() as int) =~= name@);
            let whitelisted = listed(&config.code_extensions, name) || (start < cs.len() && listed(
                &config.code_extensions,
                trimmed.as_str(),
            ));
            if !whitelisted {
                return Some(SkipReason::HiddenFile);
            }
        }
    }
    if listed(&config.ignore_extensions, ext) {
        return Some(SkipReason::IgnoredExtension);
    }
    if !ext.is_empty() && !listed(&config.code_extensions, ext) && !listed(
        &config.code_extensions,
        name,
    ) {
        return Some(SkipReason::UnsupportedExtension);
    }
    None
}

/// Whether a file of `size` bytes is over the size limit.
pub fn over_size_limit(config: &ProjectConfig, size: u64) -> (r: bool)
    ensures
        r == (size > config.max_file_size),
{
    size > config.max_file_size
}

/// What an entry met by the walk of a project is to the scan.
pub enum EntryKind {
    /// Its name is a directory name that is never entered: it is passed over uncounted.
    Ignored,
    Directory,
    File,
}

/// What an entry of lowercase name `name` is to the scan: a name of the ignored directories is
/// passed over whether it names a directory or a file.
pub open spec fn entry_kind_of(config: ProjectConfig, name: Seq<char>, is_dir: bool) -> EntryKind {
    if lists(config.ignore_dirs, name) {
        EntryKind::Ignored
    } else if is_dir {
        EntryKind::Directory
    } else {
        EntryKind::File
    }
}

/// What an entry of the walk is to the scan (see `entry_kind_of`).
pub fn entry_kind(config: &ProjectConfig, name: &str, is_dir: bool) -> (r: EntryKind)
    ensures
        r == entry_kind_of(*config, name@, is_dir),
{
    if is_ignored_dir(config, name) {
        EntryKind::Ignored
    } else if is_dir {
        EntryKind::Directory
    } else {
        EntryKind::File
    }
}

/// The three walks over a project: the LOC summary, the analysis, and the written report.
pub enum ScanKind {
    Loc,
    Analysis,
    Report,
}

/// The next step of the filters on a file.
pub enum FileStep {
    /// The file is left out and counted as skipped for this reason.
    Skip(SkipReason),
    /// The file is left out without being counted (a written report passes over a file whose
    /// metadata cannot be read).
    Drop,
    /// The filters need the file's size from its metadata.
    NeedSize,
    /// The filters need to know whether the file's first 1024 bytes hold a NUL byte.
    NeedBinaryCheck,
    /// The file passes every filter and is read.
    Accept,
}

/// The next step of the filters on a file of lowercase name `name` and lowercase extension
/// `ext`, given what is known of it: `size` is `None` until the metadata was asked for, then
/// the size or `None` when the metadata could not be read; `binary` is `None` until the first
/// bytes were looked at. The name filters come first (the written report does not pass over
/// hidden files), then the metadata and the size limit, then (except for the written report)
/// the binary test.
pub open spec fn file_step_of(
    config: ProjectConfig,
    kind: ScanKind,
    name: Seq<char>,
    ext: Seq<char>,
    size: Option<Option<u64>>,
    binary: Option<bool>,
) -> FileStep {
    match name_verdict(config, name, ext, !(kind is Report)) {
        Some(reason) => FileStep::Skip(reason),
        None => match size {
            None => FileStep::NeedSize,
            Some(None) => if kind is Report {
                FileStep::Drop
            } else {
                FileStep::Skip(SkipReason::MetadataError)
            },
            Some(Some(bytes)) => if bytes > config.max_file_size {
                FileStep::Skip(SkipReason::OverMaxFileSize)
            } else if kind is Report {
                FileStep::Accept
            } else {
                match binary {
                    None => FileStep::NeedBinaryCheck,
                    Some(true) => FileStep::Skip(SkipReason::BinaryFile),
                    Some(false) => FileStep::Accept,
                }
            },
        },
    }
}

/// The next step of the filters on a file (see `file_step_of`).
pub fn next_file_step(
    config: &ProjectConfig,
    kind: &ScanKind,
    name: &str,
    ext: &str,
    size: Option<Option<u64>>,
    binary: Option<bool>,
) -> (r: FileStep)
    ensures
        r == file_step_of(*config, *kind, name@, ext@, size, binary),
{
    let is_report = match kind {
        ScanKind::Report => true,
        _ => false,
    };
    if let Some(reason) = classify_name(config, name, ext, !is_report) {
        return FileStep::Skip(reason);
    }
    match size {
        None => FileStep::NeedSize,
        Some(None) => if is_report {
            FileStep::Drop
        } else {
            FileStep::Skip(SkipReason::MetadataError)
        },
        Some(Some(bytes)) => if over_size_limit(config, bytes) {
            FileStep::Skip(SkipReason::OverMaxFileSize)
        } else if is_report {
            FileStep::Accept
        } else {
            match binary {
                None => FileStep::NeedBinaryCheck,
                Some(true) => FileStep::Skip(SkipReason::BinaryFile),
                Some(false) => FileStep::Accept,
            }
        },
    }
}

/// The filters on a file settle after at most two questions: once the size is known they never
/// ask for it again, once the binary test is known they never ask for it again, and a file is
/// accepted only when its name passes, its size was read and is within the limit, and (except
/// for the written report) its first bytes hold no NUL byte. A file that its name leaves out is
/// left out for that reason before anything is read.
pub proof fn law_file_steps_settle(
    config: ProjectConfig,
    kind: ScanKind,
    name: Seq<char>,
    ext: Seq<char>,
    size: Option<Option<u64>>,
    binary: Option<bool>,
)
    ensures
        size is Some ==> !(file_step_of(config, kind, name, ext, size, binary) is NeedSize),
        binary is Some ==> !(file_step_of(config, kind, name, ext, size, binary) is NeedBinaryCheck),
        file_step_of(config, kind, name, ext, size, binary) is NeedBinaryCheck ==> size is Some,
        file_step_of(config, kind, name, ext, size, binary) is Accept ==> {
            &&& name_verdict(config, name, ext, !(kind is Report)) is None
            &&& size matches Some(Some(bytes)) && bytes <= config.max_file_size
            &&& !(kind is Report) ==> binary == Some(false)
        },
        name_verdict(config, name, ext, !(kind is Report)) matches Some(reason) ==> file_step_of(
            config,
            kind,
            name,
            ext,
            size,
            binary,
        ) == FileStep::Skip(reason),
{
}

/// Dotfiles are left out of the LOC summary and the analysis, before anything is read, unless
/// the code list names them with or without their leading dots (or they are skipped by name
/// first).
pub proof fn law_dotfiles_left_out_unless_listed(
    config: ProjectConfig,
    kind: ScanKind,
    name: Seq<char>,
    ext: Seq<char>,
    size: Option<Option<u64>>,
    binary: Option<bool>,
)
    requires
        !(kind is Report),
        name.len() > 0,
        name[0] == '.',
        !lists(config.ignore_files, name),
        !lists(config.code_extensions, name),
        !lists(config.code_extensions, crate::config::strip_leading_dots(name)),
    ensures
        file_step_of(config, kind, name, ext, size, binary) == FileStep::Skip(
            SkipReason::HiddenFile,
        ),
{
}

/// In every walk, the written report included, a file whose lowercase name is on the
/// ignored-files list is skipped for that reason, before anything about it is read.
pub proof fn law_ignored_files_always_skipped(
    config: ProjectConfig,
    kind: ScanKind,
    name: Seq<char>,
    ext: Seq<char>,
    size: Option<Option<u64>>,
    binary: Option<bool>,
)
    requires
        lists(config.ignore_files, name),
    ensures
        file_step_of(config, kind, name, ext, size, binary) == FileStep::Skip(
            SkipReason::IgnoredFile,
        ),
{
}

/// In every walk, a file whose lowercase extension is on the ignored-extensions list is skipped,
/// for that reason unless its name is ignored first or (outside the written report) it is an
/// unlisted dotfile.
pub proof fn law_ignored_extensions_always_skipped(
    config: ProjectConfig,
    kind: ScanKind,
    name: Seq<char>,
    ext: Seq<char>,
    size: Option<Option<u64>>,
    binary: Option<bool>,
)
    requires
        lists(config.ignore_extensions, ext),
    ensures
        file_step_of(config, kind, name, ext, size, binary) is Skip,
        !lists(config.ignore_files, name) && (kind is Report || name.len() == 0 || name[0] != '.')
            ==> file_step_of(config, kind, name, ext, size, binary) == FileStep::Skip(
            SkipReason::IgnoredExtension,
        ),
{
}

/// A file over the size limit is never accepted, in any walk.
pub proof fn law_oversized_files_never_accepted(
    config: ProjectConfig,
    kind: ScanKind,
    name: Seq<char>,
    ext: Seq<char>,
    bytes: u64,
    binary: Option<bool>,
)
    requires
        bytes > config.max_file_size,
    ensures
        !(file_step_of(config, kind, name, ext, Some(Some(bytes)), binary) is Accept),
{
}

// ---------------------------------------------------------------------------
// Counting
// ---------------------------------------------------------------------------

/// The language family of an extension, as the analysis groups files.
pub open spec fn language_of(ext: Seq<char>) -> Seq<char> {
    if ext == "rs"@ {
        "Rust"@
    } else if ext == "ts"@ || ext == "tsx"@ {
        "TypeScript"@
    } else if ext == "js"@ || ext == "jsx"@ || ext == "mjs"@ || ext == "cjs"@ {
        "JavaScript"@
    } else if ext == "html"@ {
        "HTML"@
    } else if ext == "css"@ || ext == "scss"@ {
        "Styles"@
    } else if ext == "py"@ {
        "Python"@
    } else if ext == "go"@ {
        "Go"@
    } else if ext == "java"@ || ext == "kt"@ {
        "Java/Kotlin"@
    } else if ext == "swift"@ {
        "Swift"@
    } else if ext == "dart"@ {
        "Dart"@
    } else if ext == "rb"@ {
        "Ruby"@
    } else if ext == "php"@ {
        "PHP"@
    } else if ext == "cs"@ {
        "C#"@
    } else if ext == "c"@ || ext == "cpp"@ || ext == "h"@ || ext == "hpp"@ {
        "C/C++"@
    } else if ext == "json"@ || ext == "yaml"@ || ext == "yml"@ || ext == "toml"@ || ext == "xml"@ {
        "Config"@
    } else if ext == "md"@ || ext == "txt"@ || ext == "tex"@ {
        "Docs"@
    } else if ext == "sh"@ || ext == "bash"@ {
        "Shell"@
    } else if ext == "sql"@ {
        "SQL"@
    } else if ext == "csv"@ {
        "Data"@
    } else if ext == "ipynb"@ {
        "Notebook"@
    } else if ext == "dockerfile"@ {
        "Docker"@
    } else if ext == "makefile"@ {
        "Make"@
    } else if ext == "no extension"@ {
        "No extension"@
    } else {
        "Other"@
    }
}

/// The language family of an extension (e.g. "Rust" for `rs`), "Other" when unknown.
pub fn language_for_extension(ext: &str) -> (r: &'static str)
    ensures
        r@ == language_of(ext@),
{
    if str_eq(ext, "rs") {
        return "Rust";
    }
    if str_eq(ext, "ts") || str_eq(ext, "tsx") {
        return "TypeScript";
    }
    if str_eq(ext, "js") || str_eq(ext, "jsx") || str_eq(ext, "mjs") || str_eq(ext, "cjs") {
        return "JavaScript";
    }
    if str_eq(ext, "html") {
        return "HTML";
    }
    if str_eq(ext, "css") || str_eq(ext, "scss") {
        return "Styles";
    }
    if str_eq(ext, "py") {
        return "Python";
    }
    if str_eq(ext, "go") {
        return "Go";
    }
    if str_eq(ext, "java") || str_eq(ext, "kt") {
        return "Java/Kotlin";
    }
    if str_eq(ext, "swift") {
        return "Swift";
    }
    if str_eq(ext, "dart") {
        return "Dart";
    }
    if str_eq(ext, "rb") {
        return "Ruby";
    }
    if str_eq(ext, "php") {
        return "PHP";
    }
    if str_eq(ext, "cs") {
        return "C#";
    }
    if str_eq(ext, "c") || str_eq(ext, "cpp") || str_eq(ext, "h") || str_eq(ext, "hpp") {
        return "C/C++";
    }
    if str_eq(ext, "json") || str_eq(ext, "yaml") || str_eq(ext, "yml") || str_eq(ext, "toml") || str_eq(ext, "xml") {
        return "Config";
    }
    if str_eq(ext, "md") || str_eq(ext, "txt") || str_eq(ext, "tex") {
        return "Docs";
    }
    if str_eq(ext, "sh") || str_eq(ext, "bash") {
        return "Shell";
    }
    if str_eq(ext, "sql") {
        return "SQL";
    }
    if str_eq(ext, "csv") {
        return "Data";
    }
    if str_eq(ext, "ipynb") {
        return "Notebook";
    }
    if str_eq(ext, "dockerfile") {
        return "Docker";
    }
    if str_eq(ext, "makefile") {
        return "Make";
    }
    if str_eq(ext, "no extension") {
        return "No extension";
    }
    "Other"
}

/// The label under which the analysis groups a file: its lowercase extension, else its
/// lowercase name, else "no extension".
pub open spec fn extension_label(ext: Seq<char>, name: Seq<char>) -> Seq<char> {
    if ext.len() > 0 {
        ext
    } else if name.len() == 0 {
        "no extension"@
    } else {
        name
    }
}

/// The label under which the analysis groups a file (see `extension_label`).
pub fn analysis_extension_label(ext: &str, name: &str) -> (r: String)
    ensures
        r@ == extension_label(ext@, name@),
{
    if !ext.is_empty() {
        ext.to_owned()
    } else if name.is_empty() {
        "no extension".to_owned()
    } else {
        name.to_owned()
    }
}

/// The token estimate for a number of characters: one token per four characters, rounded up.
pub fn estimate_tokens(total_chars: u64) -> (r: u64)
    requires
        total_chars + 3 <= u64::MAX,
    ensures
        r == (total_chars + 3) / 4,
        r * 4 >= total_chars,
        total_chars > 0 ==> (r - 1) * 4 < total_chars,
        r <= total_chars,
{
    (total_chars + 3) / 4
}

/// The number of lines (as `str::lines` counts them) and of characters of a text.
pub fn text_counts(content: &str) -> (r: (u64, u64))
    ensures
        r.0 == lines(content@).len(),
        r.1 == content@.len(),
{
    let cs = chars_of(content);
    let n = crate::text::count_lines(&cs);
    proof {
        assert(lines(content@).len() <= content@.len()) by {
            lemma_lines_len(content@);
        }
    }
    (n as u64, cs.len() as u64)
}

/// A text has no more lines than characters.
pub proof fn lemma_lines_len(s: Seq<char>)
    ensures
        lines(s).len() <= s.len(),
    decreases s.len(),
{
    if s.len() > 0 {
        let k = crate::text::prefix_len(s, crate::text::newline_stop()) as int;
        crate::text::lemma_prefix_len_bound(s, crate::text::newline_stop());
        if k < s.len() {
            lemma_lines_len(s.skip(k + 1));
        }
    }
}

// ---------------------------------------------------------------------------
// Report lines
// ---------------------------------------------------------------------------

/// `n` spaces.
pub open spec fn spaces(n: nat) -> Seq<char> {
    Seq::new(n, |i: int| ' ')
}

/// The line of the folder tree for an entry at `depth` (1 for the project's own children):
/// two spaces per level below the first, then `├── name/` for a directory or `└── name` for a
/// file.
pub open spec fn tree_line_text(depth: nat, name: Seq<char>, is_dir: bool) -> Seq<char> {
    let indent = spaces(2 * (if depth > 0 { depth - 1 } else { 0 }) as nat);
    if is_dir {
        indent + seq!['├', '─', '─', ' '] + name + seq!['/']
    } else {
        indent + seq!['└', '─', '─', ' '] + name
    }
}

fn push_spaces(out: &mut String, n: usize)
    ensures
        final(out)@ == old(out)@ + spaces(n as nat),
{
    let mut i: usize = 0;
    while i < n
        invariant
            0 <= i <= n,
            out@ == old(out)@ + spaces(i as nat),
        decreases n - i,
    {
        push_char(out, ' ');
        i = i + 1;
        assert(spaces(i as nat) =~= spaces((i - 1) as nat).push(' '));
    }
}

/// The line of the folder tree for an entry (see `tree_line_text`).
pub fn tree_line(depth: usize, name: &str, is_dir: bool) -> (r: String)
    ensures
        r@ == tree_line_text(depth as nat, name@, is_dir),
{
    let levels = if depth > 0 { depth - 1 } else { 0 };
    let mut out = String::new();
    let mut i: usize = 0;
    while i < levels
        invariant
            0 <= i <= levels,
            out@ == spaces(2 * i as nat),
        decreases levels - i,
    {
        push_char(&mut out, ' ');
        push_char(&mut out, ' ');
        i = i + 1;
        assert(spaces(2 * i as nat) =~= spaces(2 * (i - 1) as nat).push(' ').push(' '));
    }
    if is_dir {
        push_char(&mut out, '├');
    } else {
        push_char(&mut out, '└');
    }
    push_char(&mut out, '─');
    push_char(&mut out, '─');
    push_char(&mut out, ' ');
    push_all(&mut out, name);
    if is_dir {
        push_char(&mut out, '/');
    }
    assert(out@ =~= tree_line_text(depth as nat, name@, is_dir));
    out
}

/// A source line of a verbose report: its number right-aligned on four columns, ` │ `, then
/// the line.
pub open spec fn numbered_line_text(number: nat, line: Seq<char>) -> Seq<char> {
    let d = decimal(number);
    spaces(if d.len() < 4 { (4 - d.len()) as nat } else { 0 }) + d + seq![' ', '│', ' '] + line
}

/// The line of a verbose report for the source line at `index` (counted from zero).
pub fn numbered_line(index: u64, line: &str) -> (r: String)
    requires
        index < u64::MAX,
    ensures
        r@ == numbered_line_text((index + 1) as nat, line@),
{
    let mut digits: Vec<char> = Vec::new();
    crate::text::push_decimal(&mut digits, index + 1);
    assert(digits@ =~= decimal((index + 1) as nat));
    let mut out = String::new();
    let pad = if digits.len() < 4 { 4 - digits.len() } else { 0 };
    push_spaces(&mut out, pad);
    let ds = crate::text::string_from_chars(&digits);
    push_all(&mut out, ds.as_str());
    push_char(&mut out, ' ');
    push_char(&mut out, '│');
    push_char(&mut out, ' ');
    push_all(&mut out, line);
    assert(out@ =~= numbered_line_text((index + 1) as nat, line@));
    out
}

/// The file name of part `part` of a project's report: `<project>_project_code.txt` for the
/// first part, `<project>_project_code_<part>.txt` for the others.
pub open spec fn report_file_name(project: Seq<char>, part: nat) -> Seq<char> {
    if part == 1 {
        project + "_project_code.txt"@
    } else {
        project + "_project_code_"@ + decimal(part) + ".txt"@
    }
}

/// The file name of part `part` of a project's report (see `report_file_name`).
pub fn path_for_part(project: &str, part: u32) -> (r: String)
    ensures
        r@ == report_file_name(project@, part as nat),
{
    let mut out = String::new();
    push_all(&mut out, project);
    if part == 1 {
        push_all(&mut out, "_project_code.txt");
    } else {
        push_all(&mut out, "_project_code_");
        let d = crate::text::decimal_string(part as u64);
        push_all(&mut out, d.as_str());
        push_all(&mut out, ".txt");
    }
    assert(out@ =~= report_file_name(project@, part as nat));
    out
}

// ---------------------------------------------------------------------------
// LOC statistics
// ---------------------------------------------------------------------------

/// A file of the LOC summary's top list.
pub struct LocFileEntry {
    pub path: String,
    pub lines: u64,
    pub size: u64,
}

impl View for LocFileEntry {
    type V = (Seq<char>, u64, u64);

    open spec fn view(&self) -> (Seq<char>, u64, u64) {
        (self.path@, self.lines, self.size)
    }
}

/// The line count of a top-list file, by which the list is ordered.
pub open spec fn loc_lines() -> spec_fn((Seq<char>, u64, u64)) -> u64 {
    |v: (Seq<char>, u64, u64)| v.1
}

/// Totals of a LOC summary.
pub struct LocStats {
    pub processed_files: u64,
    pub skipped_files: u64,
    pub total_lines: u64,
    pub total_chars: u64,
    pub estimated_tokens: u64,
    pub largest_files: Vec<LocFileEntry>,
    /// The files counted so far (path, lines, bytes), in the order they were counted.
    pub counted: Ghost<Seq<(Seq<char>, u64, u64)>>,
}

impl LocStats {
    /// The top list is the one kept step by step over the files counted so far, ordered by
    /// descending line count, of ten files or every counted file when fewer were counted; the
    /// file and line totals are those of the counted files.
    pub open spec fn wf(&self) -> bool {
        &&& sorted_desc(keys_of(views(self.largest_files@), loc_lines()))
        &&& self.largest_files.len() <= top_len()
        &&& self.largest_files.len() == top_count(self.processed_files as nat)
        &&& views(self.largest_files@) == top_all(self.counted@, loc_lines())
        &&& self.counted@.len() == self.processed_files
        &&& sum_of(self.counted@, loc_lines()) == self.total_lines
    }

    /// Nothing counted yet.
    pub fn new() -> (r: LocStats)
        ensures
            r.processed_files == 0,
            r.skipped_files == 0,
            r.total_lines == 0,
            r.total_chars == 0,
            r.estimated_tokens == 0,
            r.largest_files@.len() == 0,
            r.wf(),
    {
        let r = LocStats {
            processed_files: 0,
            skipped_files: 0,
            total_lines: 0,
            total_chars: 0,
            estimated_tokens: 0,
            largest_files: Vec::new(),
            counted: Ghost(Seq::empty()),
        };
        assert(keys_of(views(r.largest_files@), loc_lines()) =~= Seq::<u64>::empty());
        assert(views(r.largest_files@) =~= Seq::<(Seq<char>, u64, u64)>::empty());
        r
    }

    /// Counts one skipped file.
    pub fn record_skip(&mut self)
        requires
            old(self).skipped_files < u64::MAX,
        ensures
            final(self).skipped_files == old(self).skipped_files + 1,
            final(self).processed_files == old(self).processed_files,
            final(self).total_lines == old(self).total_lines,
            final(self).total_chars == old(self).total_chars,
            final(self).estimated_tokens == old(self).estimated_tokens,
            final(self).largest_files == old(self).largest_files,
            final(self).counted == old(self).counted,
    {
        self.skipped_files = self.skipped_files + 1;
    }

    /// Counts one processed file of `lines` lines and `chars` characters, at `path` relative
    /// to the project, of `size` bytes.
    pub fn record_file(&mut self, path: String, lines: u64, chars: u64, size: u64)
        requires
            old(self).wf(),
            old(self).processed_files < u64::MAX,
            old(self).total_lines + lines <= u64::MAX,
            old(self).total_chars + chars <= u64::MAX,
        ensures
            final(self).wf(),
            final(self).processed_files == old(self).processed_files + 1,
            final(self).total_lines == old(self).total_lines + lines,
            final(self).total_chars == old(self).total_chars + chars,
            final(self).skipped_files == old(self).skipped_files,
            final(self).estimated_tokens == old(self).estimated_tokens,
            views(final(self).largest_files@) == top_insert(
                views(old(self).largest_files@),
                (path@, lines, size),
                loc_lines(),
            ),
            final(self).counted@ == old(self).counted@.push((path@, lines, size)),
    {
        let ghost e = (path@, lines, size);
        let ghost h = self.counted@;
        self.processed_files = self.processed_files + 1;
        self.total_lines = self.total_lines + lines;
        self.total_chars = self.total_chars + chars;
        record_top_loc_file(self, path, lines, size);
        self.counted = Ghost(h.push(e));
        proof {
            assert(h.push(e).drop_last() =~= h);
            lemma_sum_push(h, e, loc_lines());
        }
    }

    /// Sets the token estimate from the character total.
    pub fn finish(&mut self)
        requires
            old(self).total_chars + 3 <= u64::MAX,
        ensures
            final(self).estimated_tokens == (old(self).total_chars + 3) / 4,
            final(self).processed_files == old(self).processed_files,
            final(self).skipped_files == old(self).skipped_files,
            final(self).total_lines == old(self).total_lines,
            final(self).total_chars == old(self).total_chars,
            final(self).largest_files == old(self).largest_files,
            final(self).counted == old(self).counted,
    {
        self.estimated_tokens = estimate_tokens(self.total_chars);
    }
}

/// The LOC top list is the first ten of all counted files sorted by descending line count,
/// ties in the order they were counted; when ten files or fewer were counted it holds every
/// counted file, and their line counts add up to the total.
pub proof fn law_loc_top_list(s: LocStats)
    requires
        s.wf(),
    ensures
        views(s.largest_files@) == keep_top(ranked_all(s.counted@, loc_lines())),
        sorted_desc(keys_of(ranked_all(s.counted@, loc_lines()), loc_lines())),
        ranked_all(s.counted@, loc_lines()).to_multiset() == s.counted@.to_multiset(),
        s.processed_files <= top_len() ==> views(s.largest_files@).to_multiset()
            == s.counted@.to_multiset(),
        s.processed_files <= top_len() ==> sum_of(views(s.largest_files@), loc_lines())
            == s.total_lines,
{
    broadcast use vstd::seq_lib::group_to_multiset_ensures;

    let h = s.counted@;
    law_top_list_is_top_of_all(h, loc_lines());
    if s.processed_files <= top_len() {
        let r = ranked_all(h, loc_lines());
        assert(r.to_multiset().len() == h.to_multiset().len());
        assert(r.len() == h.len());
        assert(keep_top(r) == r);
        lemma_sum_permutation(views(s.largest_files@), h, loc_lines());
    }
}

/// Places the file in the top list of the LOC summary: after the files with at least as many
/// lines, keeping the ten first.
pub fn record_top_loc_file(stats: &mut LocStats, path: String, lines: u64, size: u64)
    requires
        sorted_desc(keys_of(views(old(stats).largest_files@), loc_lines())),
        old(stats).largest_files.len() <= top_len(),
    ensures
        views(final(stats).largest_files@) == top_insert(
            views(old(stats).largest_files@),
            (path@, lines, size),
            loc_lines(),
        ),
        sorted_desc(keys_of(views(final(stats).largest_files@), loc_lines())),
        final(stats).largest_files.len() <= top_len(),
        final(stats).largest_files.len() == top_count((old(stats).largest_files.len() + 1) as nat),
        final(stats).processed_files == old(stats).processed_files,
        final(stats).skipped_files == old(stats).skipped_files,
        final(stats).total_lines == old(stats).total_lines,
        final(stats).total_chars == old(stats).total_chars,
        final(stats).estimated_tokens == old(stats).estimated_tokens,
        final(stats).counted == old(stats).counted,
{
    let ghost old_views = views(stats.largest_files@);
    let ghost ks = keys_of(old_views, loc_lines());
    let ghost e = (path@, lines, size);
    proof {
        lemma_count_at_least(ks, lines);
        lemma_ranked_insert_sorted(old_views, e, loc_lines());
    }
    let mut i: usize = 0;
    assert(ks.skip(0) =~= ks);
    while i < stats.largest_files.len() && stats.largest_files[i].lines >= lines
        invariant
            0 <= i <= stats.largest_files.len(),
            old_views == views(stats.largest_files@),
            ks == keys_of(old_views, loc_lines()),
            count_at_least(ks, lines) == i + count_at_least(ks.skip(i as int), lines),
        decreases stats.largest_files.len() - i,
    {
        assert(ks[i as int] == stats.largest_files@[i as int].lines);
        assert(ks.skip(i as int).drop_first() =~= ks.skip(i + 1));
        i = i + 1;
    }
    proof {
        if i < stats.largest_files.len() {
            assert(ks[i as int] == stats.largest_files@[i as int].lines);
            assert(ks.skip(i as int)[0] == ks[i as int]);
        }
        assert(count_at_least(ks, lines) == i);
    }
    let entry = LocFileEntry { path, lines, size };
    stats.largest_files.insert(i, entry);
    assert(views(stats.largest_files@) =~= ranked_insert(old_views, e, loc_lines()));
    if stats.largest_files.len() > 10 {
        stats.largest_files.truncate(10);
        assert(views(stats.largest_files@) =~= top_insert(old_views, e, loc_lines()));
    }
}

// ---------------------------------------------------------------------------
// Project analysis
// ---------------------------------------------------------------------------

/// Totals of the processed files of one extension.
pub struct ExtensionStats {
    pub extension: String,
    pub language: String,
    pub files: u64,
    pub lines: u64,
    pub chars: u64,
    pub estimated_tokens: u64,
    pub size: u64,
}

/// Extension, language, files, lines, characters, tokens, bytes.
pub type ExtensionView = (Seq<char>, Seq<char>, u64, u64, u64, u64, u64);

impl View for ExtensionStats {
    type V = ExtensionView;

    open spec fn view(&self) -> ExtensionView {
        (
            self.extension@,
            self.language@,
            self.files,
            self.lines,
            self.chars,
            self.estimated_tokens,
            self.size,
        )
    }
}

pub open spec fn ext_name() -> spec_fn(ExtensionView) -> Seq<char> {
    |v: ExtensionView| v.0
}

pub open spec fn ext_files() -> spec_fn(ExtensionView) -> u64 {
    |v: ExtensionView| v.2
}

pub open spec fn ext_lines() -> spec_fn(ExtensionView) -> u64 {
    |v: ExtensionView| v.3
}

pub open spec fn ext_chars() -> spec_fn(ExtensionView) -> u64 {
    |v: ExtensionView| v.4
}

pub open spec fn ext_tokens() -> spec_fn(ExtensionView) -> u64 {
    |v: ExtensionView| v.5
}

pub open spec fn ext_size() -> spec_fn(ExtensionView) -> u64 {
    |v: ExtensionView| v.6
}

/// The extension totals after one more file of that extension.
pub open spec fn ext_recorded(
    s: Seq<ExtensionView>,
    ext: Seq<char>,
    lines: u64,
    chars: u64,
    tokens: u64,
    size: u64,
) -> Seq<ExtensionView> {
    let p = name_position(s, ext_name(), ext) as int;
    if p < s.len() {
        let v = s[p];
        s.update(
            p,
            (
                v.0,
                v.1,
                (v.2 + 1) as u64,
                (v.3 + lines) as u64,
                (v.4 + chars) as u64,
                (v.5 + tokens) as u64,
                (v.6 + size) as u64,
            ),
        )
    } else {
        s.push((ext, language_of(ext), 1, lines, chars, tokens, size))
    }
}

/// Recording a file adds it to the totals by extension: one more file, and its lines,
/// characters, token estimate and bytes, to the sums over all extensions.
pub proof fn law_extension_totals_add_up(
    s: Seq<ExtensionView>,
    ext: Seq<char>,
    lines: u64,
    chars: u64,
    tokens: u64,
    size: u64,
)
    requires
        ({
            let p = name_position(s, ext_name(), ext) as int;
            p < s.len() ==> {
                &&& s[p].2 + 1 <= u64::MAX
                &&& s[p].3 + lines <= u64::MAX
                &&& s[p].4 + chars <= u64::MAX
                &&& s[p].5 + tokens <= u64::MAX
                &&& s[p].6 + size <= u64::MAX
            }
        }),
    ensures
        sum_of(ext_recorded(s, ext, lines, chars, tokens, size), ext_files()) == sum_of(s, ext_files())
            + 1,
        sum_of(ext_recorded(s, ext, lines, chars, tokens, size), ext_lines()) == sum_of(s, ext_lines())
            + lines,
        sum_of(ext_recorded(s, ext, lines, chars, tokens, size), ext_chars()) == sum_of(s, ext_chars())
            + chars,
        sum_of(ext_recorded(s, ext, lines, chars, tokens, size), ext_tokens()) == sum_of(
            s,
            ext_tokens(),
        ) + tokens,
        sum_of(ext_recorded(s, ext, lines, chars, tokens, size), ext_size()) == sum_of(s, ext_size())
            + size,
{
    lemma_name_position(s, ext_name(), ext);
    let p = name_position(s, ext_name(), ext) as int;
    if p < s.len() {
        let v = s[p];
        let w = (
            v.0,
            v.1,
            (v.2 + 1) as u64,
            (v.3 + lines) as u64,
            (v.4 + chars) as u64,
            (v.5 + tokens) as u64,
            (v.6 + size) as u64,
        );
        lemma_sum_update(s, p, w, ext_files());
        lemma_sum_update(s, p, w, ext_lines());
        lemma_sum_update(s, p, w, ext_chars());
        lemma_sum_update(s, p, w, ext_tokens());
        lemma_sum_update(s, p, w, ext_size());
    } else {
        let w = (ext, language_of(ext), 1u64, lines, chars, tokens, size);
        lemma_sum_push(s, w, ext_files());
        lemma_sum_push(s, w, ext_lines());
        lemma_sum_push(s, w, ext_chars());
        lemma_sum_push(s, w, ext_tokens());
        lemma_sum_push(s, w, ext_size());
    }
}

impl ExtensionStats {
    fn copy(&self) -> (r: ExtensionStats)
        ensures
            r@ == self@,
    {
        ExtensionStats {
            extension: self.extension.clone(),
            language: self.language.clone(),
            files: self.files,
            lines: self.lines,
            chars: self.chars,
            estimated_tokens: self.estimated_tokens,
            size: self.size,
        }
    }
}

/// Adds one processed file to the totals of its extension, making them when it is the first.
pub fn record_extension_stats(
    stats: &mut Vec<ExtensionStats>,
    extension: &str,
    lines: u64,
    chars: u64,
    estimated_tokens: u64,
    size: u64,
)
    requires
        names_unique(views(old(stats)@), ext_name()),
        ({
            let s = views(old(stats)@);
            let p = name_position(s, ext_name(), extension@) as int;
            p < s.len() ==> s[p].2 < u64::MAX && s[p].3 + lines <= u64::MAX && s[p].4 + chars
                <= u64::MAX && s[p].5 + estimated_tokens <= u64::MAX && s[p].6 + size <= u64::MAX
        }),
    ensures
        views(final(stats)@) == ext_recorded(
            views(old(stats)@),
            extension@,
            lines,
            chars,
            estimated_tokens,
            size,
        ),
        names_unique(views(final(stats)@), ext_name()),
{
    let ghost s = views(stats@);
    proof {
        lemma_name_position(s, ext_name(), extension@);
    }
    let mut i: usize = 0;
    assert(s.skip(0) =~= s);
    while i < stats.len() && !str_eq(stats[i].extension.as_str(), extension)
        invariant
            s == views(stats@),
            0 <= i <= stats.len(),
            name_position(s, ext_name(), extension@) == i + name_position(
                s.skip(i as int),
                ext_name(),
                extension@,
            ),
        decreases stats.len() - i,
    {
        assert(s[i as int].0 == stats@[i as int].extension@);
        assert(s.skip(i as int).drop_first() =~= s.skip(i + 1));
        i = i + 1;
    }
    proof {
        if i < stats.len() {
            assert(s[i as int].0 == stats@[i as int].extension@);
            assert(s.skip(i as int)[0] == s[i as int]);
        }
    }
    if i < stats.len() {
        let old_entry = stats[i].copy();
        let updated = ExtensionStats {
            extension: old_entry.extension,
            language: old_entry.language,
            files: old_entry.files + 1,
            lines: old_entry.lines + lines,
            chars: old_entry.chars + chars,
            estimated_tokens: old_entry.estimated_tokens + estimated_tokens,
            size: old_entry.size + size,
        };
        stats.set(i, updated);
        proof {
            let t = views(stats@);
            assert(t =~= ext_recorded(s, extension@, lines, chars, estimated_tokens, size));
            assert forall|a: int, b: int|
                0 <= a < t.len() && 0 <= b < t.len() && a != b implies ext_name()(
                    #[trigger] t[a],
                ) != ext_name()(#[trigger] t[b]) by {
                assert(ext_name()(t[a]) == ext_name()(s[a]));
                assert(ext_name()(t[b]) == ext_name()(s[b]));
            }
        }
    } else {
        let language = language_for_extension(extension).to_owned();
        let fresh = ExtensionStats {
            extension: extension.to_owned(),
            language,
            files: 1,
            lines,
            chars,
            estimated_tokens,
            size,
        };
        stats.push(fresh);
        proof {
            let t = views(stats@);
            assert(t =~= ext_recorded(s, extension@, lines, chars, estimated_tokens, size));
            assert forall|a: int, b: int|
                0 <= a < t.len() && 0 <= b < t.len() && a != b implies ext_name()(
                    #[trigger] t[a],
                ) != ext_name()(#[trigger] t[b]) by {
                if a < s.len() && b < s.len() {
                    assert(t[a] == s[a] && t[b] == s[b]);
                } else if a < s.len() {
                    assert(t[a] == s[a]);
                } else if b < s.len() {
                    assert(t[b] == s[b]);
                }
            }
        }
    }
}

/// The count of files skipped for one reason.
pub struct SkippedReasonStats {
    pub reason: String,
    pub files: u64,
}

impl View for SkippedReasonStats {
    type V = (Seq<char>, u64);

    open spec fn view(&self) -> (Seq<char>, u64) {
        (self.reason@, self.files)
    }
}

pub open spec fn reason_name() -> spec_fn((Seq<char>, u64)) -> Seq<char> {
    |v: (Seq<char>, u64)| v.0
}

pub open spec fn reason_files() -> spec_fn((Seq<char>, u64)) -> u64 {
    |v: (Seq<char>, u64)| v.1
}

/// The reason counts after one more file skipped for `reason`.
pub open spec fn reason_recorded(s: Seq<(Seq<char>, u64)>, reason: Seq<char>) -> Seq<
    (Seq<char>, u64),
> {
    let p = name_position(s, reason_name(), reason) as int;
    if p < s.len() {
        s.update(p, (s[p].0, (s[p].1 + 1) as u64))
    } else {
        s.push((reason, 1))
    }
}

/// Counts one more file skipped for `reason`.
pub fn record_skipped_reason(reasons: &mut Vec<SkippedReasonStats>, reason: &str)
    requires
        names_unique(views(old(reasons)@), reason_name()),
        ({
            let s = views(old(reasons)@);
            let p = name_position(s, reason_name(), reason@) as int;
            p < s.len() ==> s[p].1 < u64::MAX
        }),
    ensures
        views(final(reasons)@) == reason_recorded(views(old(reasons)@), reason@),
        names_unique(views(final(reasons)@), reason_name()),
{
    let ghost s = views(reasons@);
    proof {
        lemma_name_position(s, reason_name(), reason@);
    }
    let mut i: usize = 0;
    assert(s.skip(0) =~= s);
    while i < reasons.len() && !str_eq(reasons[i].reason.as_str(), reason)
        invariant
            s == views(reasons@),
            0 <= i <= reasons.len(),
            name_position(s, reason_name(), reason@) == i + name_position(
                s.skip(i as int),
                reason_name(),
                reason@,
            ),
        decreases reasons.len() - i,
    {
        assert(s[i as int].0 == reasons@[i as int].reason@);
        assert(s.skip(i as int).drop_first() =~= s.skip(i + 1));
        i = i + 1;
    }
    proof {
        if i < reasons.len() {
            assert(s[i as int].0 == reasons@[i as int].reason@);
            assert(s.skip(i as int)[0] == s[i as int]);
        }
    }
    if i < reasons.len() {
        let updated = SkippedReasonStats {
            reason: reasons[i].reason.clone(),
            files: reasons[i].files + 1,
        };
        reasons.set(i, updated);
        proof {
            let t = views(reasons@);
            assert(t =~= reason_recorded(s, reason@));
            assert forall|a: int, b: int|
                0 <= a < t.len() && 0 <= b < t.len() && a != b implies reason_name()(
                    #[trigger] t[a],
                ) != reason_name()(#[trigger] t[b]) by {
                assert(reason_name()(t[a]) == reason_name()(s[a]));
                assert(reason_name()(t[b]) == reason_name()(s[b]));
            }
        }
    } else {
        reasons.push(SkippedReasonStats { reason: reason.to_owned(), files: 1 });
        proof {
            let t = views(reasons@);
            assert(t =~= reason_recorded(s, reason@));
            assert forall|a: int, b: int|
                0 <= a < t.len() && 0 <= b < t.len() && a != b implies reason_name()(
                    #[trigger] t[a],
                ) != reason_name()(#[trigger] t[b]) by {
                if a < s.len() && b < s.len() {
                    assert(t[a] == s[a] && t[b] == s[b]);
                } else if a < s.len() {
                    assert(t[a] == s[a]);
                } else if b < s.len() {
                    assert(t[b] == s[b]);
                }
            }
        }
    }
}

/// The order of the extension breakdown: more lines first, then more files, then by extension.
pub open spec fn ext_before(a: ExtensionView, b: ExtensionView) -> bool {
    ||| a.3 > b.3
    ||| a.3 == b.3 && a.2 > b.2
    ||| a.3 == b.3 && a.2 == b.2 && text_lt(a.0, b.0)
}

impl NamedOrder for ExtensionStats {
    open spec fn name(v: ExtensionView) -> Seq<char> {
        v.0
    }

    open spec fn before(a: ExtensionView, b: ExtensionView) -> bool {
        ext_before(a, b)
    }

    proof fn lemma_irreflexive(a: ExtensionView) {
        lemma_text_lt_irreflexive(a.0);
    }

    proof fn lemma_transitive(a: ExtensionView, b: ExtensionView, c: ExtensionView) {
        if a.3 == b.3 && a.2 == b.2 && b.3 == c.3 && b.2 == c.2 {
            lemma_text_lt_transitive(a.0, b.0, c.0);
        }
    }

    proof fn lemma_total(a: ExtensionView, b: ExtensionView) {
        lemma_text_lt_total(a.0, b.0);
    }

    fn is_before(&self, other: &Self) -> (r: bool) {
        self.lines > other.lines || (self.lines == other.lines && self.files > other.files) || (
        self.lines == other.lines && self.files == other.files && crate::text::str_lt(
            self.extension.as_str(),
            other.extension.as_str(),
        ))
    }

    fn copy(&self) -> (r: Self) {
        ExtensionStats::copy(self)
    }
}

/// The extension totals in the order of the breakdown (see `ext_before`).
pub fn sorted_extension_stats(stats: Vec<ExtensionStats>) -> (r: Vec<ExtensionStats>)
    requires
        names_unique(views(stats@), ext_name()),
    ensures
        strictly_ordered::<ExtensionStats>(views(r@)),
        views(r@).to_multiset() == views(stats@).to_multiset(),
        r@.len() == stats@.len(),
        names_unique(views(r@), ext_name()),
{
    assert(name_fn::<ExtensionStats>() == ext_name());
    sort_by_order(&stats)
}

/// The extension breakdown lists more lines first: in the order of the breakdown, line counts
/// never increase, and among equal line counts file counts never increase.
pub proof fn law_breakdown_by_lines(s: Seq<ExtensionView>)
    requires
        strictly_ordered::<ExtensionStats>(s),
    ensures
        forall|i: int, j: int| 0 <= i < j < s.len() ==> #[trigger] s[i].3 >= #[trigger] s[j].3,
        forall|i: int, j: int|
            0 <= i < j < s.len() && s[i].3 == s[j].3 ==> #[trigger] s[i].2 >= #[trigger] s[j].2,
{
    assert forall|i: int, j: int| 0 <= i < j < s.len() implies #[trigger] s[i].3 >= #[trigger] s[j].3 by {
        assert(ext_before(s[i], s[j]));
    }
    assert forall|i: int, j: int|
        0 <= i < j < s.len() && s[i].3 == s[j].3 implies #[trigger] s[i].2 >= #[trigger] s[j].2 by {
        assert(ext_before(s[i], s[j]));
    }
}

/// The order of the skip reasons: more files first, then by reason.
pub open spec fn reason_before(a: (Seq<char>, u64), b: (Seq<char>, u64)) -> bool {
    a.1 > b.1 || (a.1 == b.1 && text_lt(a.0, b.0))
}

impl NamedOrder for SkippedReasonStats {
    open spec fn name(v: (Seq<char>, u64)) -> Seq<char> {
        v.0
    }

    open spec fn before(a: (Seq<char>, u64), b: (Seq<char>, u64)) -> bool {
        reason_before(a, b)
    }

    proof fn lemma_irreflexive(a: (Seq<char>, u64)) {
        lemma_text_lt_irreflexive(a.0);
    }

    proof fn lemma_transitive(a: (Seq<char>, u64), b: (Seq<char>, u64), c: (Seq<char>, u64)) {
        if a.1 == b.1 && b.1 == c.1 {
            lemma_text_lt_transitive(a.0, b.0, c.0);
        }
    }

    proof fn lemma_total(a: (Seq<char>, u64), b: (Seq<char>, u64)) {
        lemma_text_lt_total(a.0, b.0);
    }

    fn is_before(&self, other: &Self) -> (r: bool) {
        self.files > other.files || (self.files == other.files && crate::text::str_lt(
            self.reason.as_str(),
            other.reason.as_str(),
        ))
    }

    fn copy(&self) -> (r: Self) {
        SkippedReasonStats { reason: self.reason.clone(), files: self.files }
    }
}

/// The skip reasons list more files first: in report order, file counts never increase.
pub proof fn law_reasons_by_files(s: Seq<(Seq<char>, u64)>)
    requires
        strictly_ordered::<SkippedReasonStats>(s),
    ensures
        forall|i: int, j: int| 0 <= i < j < s.len() ==> #[trigger] s[i].1 >= #[trigger] s[j].1,
{
    assert forall|i: int, j: int| 0 <= i < j < s.len() implies #[trigger] s[i].1 >= #[trigger] s[j].1 by {
        assert(reason_before(s[i], s[j]));
    }
}

/// The skip reasons in the order of the report (see `reason_before`).
pub fn sorted_skipped_reasons(reasons: Vec<SkippedReasonStats>) -> (r: Vec<SkippedReasonStats>)
    requires
        names_unique(views(reasons@), reason_name()),
    ensures
        strictly_ordered::<SkippedReasonStats>(views(r@)),
        views(r@).to_multiset() == views(reasons@).to_multiset(),
        r@.len() == reasons@.len(),
        names_unique(views(r@), reason_name()),
{
    assert(name_fn::<SkippedReasonStats>() == reason_name());
    sort_by_order(&reasons)
}

/// A processed file of the analysis.
pub struct AnalysisFileEntry {
    pub path: String,
    pub extension: String,
    pub lines: u64,
    pub chars: u64,
    pub estimated_tokens: u64,
    pub size: u64,
}

/// Path, extension label, lines, characters, tokens, bytes.
pub type FileEntryView = (Seq<char>, Seq<char>, u64, u64, u64, u64);

impl View for AnalysisFileEntry {
    type V = FileEntryView;

    open spec fn view(&self) -> FileEntryView {
        (self.path@, self.extension@, self.lines, self.chars, self.estimated_tokens, self.size)
    }
}

impl AnalysisFileEntry {
    fn copy(&self) -> (r: AnalysisFileEntry)
        ensures
            r@ == self@,
    {
        AnalysisFileEntry {
            path: self.path.clone(),
            extension: self.extension.clone(),
            lines: self.lines,
            chars: self.chars,
            estimated_tokens: self.estimated_tokens,
            size: self.size,
        }
    }
}

/// The quantity a top list of the analysis is ordered by.
pub enum RankBy {
    Lines,
    Tokens,
    Size,
}

pub open spec fn by_lines() -> spec_fn(FileEntryView) -> u64 {
    |v: FileEntryView| v.2
}

pub open spec fn by_tokens() -> spec_fn(FileEntryView) -> u64 {
    |v: FileEntryView| v.4
}

pub open spec fn by_size() -> spec_fn(FileEntryView) -> u64 {
    |v: FileEntryView| v.5
}

pub open spec fn rank_key(by: RankBy) -> spec_fn(FileEntryView) -> u64 {
    match by {
        RankBy::Lines => by_lines(),
        RankBy::Tokens => by_tokens(),
        RankBy::Size => by_size(),
    }
}

fn entry_key(e: &AnalysisFileEntry, by: &RankBy) -> (r: u64)
    ensures
        r == rank_key(*by)(e@),
{
    match by {
        RankBy::Lines => e.lines,
        RankBy::Tokens => e.estimated_tokens,
        RankBy::Size => e.size,
    }
}

/// Places an entry in a top list ordered by `by`, keeping the ten first.
fn insert_ranked(list: &mut Vec<AnalysisFileEntry>, e: AnalysisFileEntry, by: RankBy)
    requires
        sorted_desc(keys_of(views(old(list)@), rank_key(by))),
        old(list).len() <= top_len(),
    ensures
        views(final(list)@) == top_insert(views(old(list)@), e@, rank_key(by)),
        sorted_desc(keys_of(views(final(list)@), rank_key(by))),
        final(list).len() <= top_len(),
        final(list).len() == top_count((old(list).len() + 1) as nat),
{
    let ghost old_views = views(list@);
    let ghost key = rank_key(by);
    let ghost ks = keys_of(old_views, key);
    let k = entry_key(&e, &by);
    proof {
        lemma_count_at_least(ks, k);
        lemma_ranked_insert_sorted(old_views, e@, key);
    }
    let mut i: usize = 0;
    assert(ks.skip(0) =~= ks);
    while i < list.len() && entry_key(&list[i], &by) >= k
        invariant
            0 <= i <= list.len(),
            old_views == views(list@),
            key == rank_key(by),
            ks == keys_of(old_views, key),
            count_at_least(ks, k) == i + count_at_least(ks.skip(i as int), k),
        decreases list.len() - i,
    {
        assert(ks[i as int] == key(list@[i as int]@));
        assert(ks.skip(i as int).drop_first() =~= ks.skip(i + 1));
        i = i + 1;
    }
    proof {
        if i < list.len() {
            assert(ks[i as int] == key(list@[i as int]@));
            assert(ks.skip(i as int)[0] == ks[i as int]);
        }
        assert(count_at_least(ks, k) == i);
    }
    let ghost ev = e@;
    list.insert(i, e);
    assert(views(list@) =~= ranked_insert(old_views, ev, key));
    if list.len() > 10 {
        list.truncate(10);
        assert(views(list@) =~= top_insert(old_views, ev, key));
    }
}

/// Directory and file counts of the project tree.
pub struct TreeStats {
    pub directories: u64,
    pub files: u64,
    pub max_depth: u64,
}

/// The settings an analysis ran with.
pub struct AnalysisConfigState {
    pub config_present: bool,
    pub gitignore_enabled: bool,
    pub max_file_size: u64,
}

/// Structured analytics of a project.
pub struct ProjectAnalysis {
    pub project_name: String,
    pub project_type: String,
    pub root_path: String,
    pub processed_files: u64,
    pub skipped_files: u64,
    pub total_lines: u64,
    pub total_chars: u64,
    pub estimated_tokens: u64,
    pub total_size: u64,
    pub extension_breakdown: Vec<ExtensionStats>,
    pub largest_by_lines: Vec<AnalysisFileEntry>,
    pub largest_by_tokens: Vec<AnalysisFileEntry>,
    pub largest_by_size: Vec<AnalysisFileEntry>,
    pub skipped_reasons: Vec<SkippedReasonStats>,
    pub tree: TreeStats,
    pub config: AnalysisConfigState,
}

/// The three top lists of an analysis are each ordered by their quantity and hold at most ten
/// entries.
pub open spec fn top_lists_wf(a: ProjectAnalysis) -> bool {
    &&& sorted_desc(keys_of(views(a.largest_by_lines@), by_lines()))
    &&& sorted_desc(keys_of(views(a.largest_by_tokens@), by_tokens()))
    &&& sorted_desc(keys_of(views(a.largest_by_size@), by_size()))
    &&& a.largest_by_lines.len() <= top_len()
    &&& a.largest_by_tokens.len() <= top_len()
    &&& a.largest_by_size.len() <= top_len()
}

/// Places a processed file in the three top lists: by lines, by tokens and by size.
pub fn record_analysis_file(analysis: &mut ProjectAnalysis, entry: AnalysisFileEntry)
    requires
        top_lists_wf(*old(analysis)),
    ensures
        top_lists_wf(*final(analysis)),
        views(final(analysis).largest_by_lines@) == top_insert(
            views(old(analysis).largest_by_lines@),
            entry@,
            by_lines(),
        ),
        views(final(analysis).largest_by_tokens@) == top_insert(
            views(old(analysis).largest_by_tokens@),
            entry@,
            by_tokens(),
        ),
        views(final(analysis).largest_by_size@) == top_insert(
            views(old(analysis).largest_by_size@),
            entry@,
            by_size(),
        ),
        final(analysis).largest_by_lines.len() == top_count((old(analysis).largest_by_lines.len() + 1) as nat),
        final(analysis).largest_by_tokens.len() == top_count((old(analysis).largest_by_tokens.len() + 1) as nat),
        final(analysis).largest_by_size.len() == top_count((old(analysis).largest_by_size.len() + 1) as nat),
        final(analysis).project_name == old(analysis).project_name,
        final(analysis).project_type == old(analysis).project_type,
        final(analysis).root_path == old(analysis).root_path,
        final(analysis).processed_files == old(analysis).processed_files,
        final(analysis).skipped_files == old(analysis).skipped_files,
        final(analysis).total_lines == old(analysis).total_lines,
        final(analysis).total_chars == old(analysis).total_chars,
        final(analysis).estimated_tokens == old(analysis).estimated_tokens,
        final(analysis).total_size == old(analysis).total_size,
        final(analysis).extension_breakdown == old(analysis).extension_breakdown,
        final(analysis).skipped_reasons == old(analysis).skipped_reasons,
        final(analysis).tree == old(analysis).tree,
        final(analysis).config == old(analysis).config,
{
    let by_lines_entry = entry.copy();
    let by_tokens_entry = entry.copy();
    insert_ranked(&mut analysis.largest_by_lines, by_lines_entry, RankBy::Lines);
    insert_ranked(&mut analysis.largest_by_tokens, by_tokens_entry, RankBy::Tokens);
    insert_ranked(&mut analysis.largest_by_size, entry, RankBy::Size);
}

/// Two analyses that agree on everything but their tree counts.
pub open spec fn same_but_tree(a: ProjectAnalysis, b: ProjectAnalysis) -> bool {
    &&& a.project_name == b.project_name
    &&& a.project_type == b.project_type
    &&& a.root_path == b.root_path
    &&& a.processed_files == b.processed_files
    &&& a.skipped_files == b.skipped_files
    &&& a.total_lines == b.total_lines
    &&& a.total_chars == b.total_chars
    &&& a.estimated_tokens == b.estimated_tokens
    &&& a.total_size == b.total_size
    &&& a.extension_breakdown == b.extension_breakdown
    &&& a.largest_by_lines == b.largest_by_lines
    &&& a.largest_by_tokens == b.largest_by_tokens
    &&& a.largest_by_size == b.largest_by_size
    &&& a.skipped_reasons == b.skipped_reasons
    &&& a.config == b.config
}

/// An analysis under way: the totals so far, the totals by extension and the skip counts by
/// reason, not yet in report order.
pub struct AnalysisBuilder {
    pub analysis: ProjectAnalysis,
    pub extension_stats: Vec<ExtensionStats>,
    pub skipped: Vec<SkippedReasonStats>,
    pub skipped_total: u64,
    /// The files processed so far, in the order they were processed.
    pub processed: Ghost<Seq<FileEntryView>>,
}

impl AnalysisBuilder {
    /// The totals agree with the totals by extension and the skip counts; each top list is the
    /// one kept step by step over the files processed so far, in order, of ten files or every
    /// processed file when fewer were processed; each extension and reason is counted once.
    pub open spec fn wf(&self) -> bool {
        let ev = views(self.extension_stats@);
        let a = self.analysis;
        &&& names_unique(ev, ext_name())
        &&& names_unique(views(self.skipped@), reason_name())
        &&& sum_of(ev, ext_files()) == a.processed_files
        &&& sum_of(ev, ext_lines()) == a.total_lines
        &&& sum_of(ev, ext_chars()) == a.total_chars
        &&& sum_of(ev, ext_size()) == a.total_size
        &&& forall|i: int| 0 <= i < ev.len() ==> #[trigger] ev[i].5 <= ev[i].4
        &&& sum_of(views(self.skipped@), reason_files()) == self.skipped_total
        &&& top_lists_wf(a)
        &&& a.largest_by_lines.len() == top_count(a.processed_files as nat)
        &&& a.largest_by_tokens.len() == top_count(a.processed_files as nat)
        &&& a.largest_by_size.len() == top_count(a.processed_files as nat)
        &&& self.processed@.len() == a.processed_files
        &&& sum_of(ev, ext_tokens()) == sum_of(self.processed@, by_tokens())
        &&& views(a.largest_by_lines@) == top_all(self.processed@, by_lines())
        &&& views(a.largest_by_tokens@) == top_all(self.processed@, by_tokens())
        &&& views(a.largest_by_size@) == top_all(self.processed@, by_size())
    }

    /// An analysis of the project `project_name` of kind `project_type` at `root_path`, with
    /// nothing counted yet.
    pub fn new(
        project_name: String,
        project_type: String,
        root_path: String,
        config_present: bool,
        gitignore_enabled: bool,
        max_file_size: u64,
    ) -> (r: AnalysisBuilder)
        ensures
            r.wf(),
            r.analysis.project_name == project_name,
            r.analysis.project_type == project_type,
            r.analysis.root_path == root_path,
            r.analysis.config.config_present == config_present,
            r.analysis.config.gitignore_enabled == gitignore_enabled,
            r.analysis.config.max_file_size == max_file_size,
            r.analysis.processed_files == 0,
            r.analysis.total_lines == 0,
            r.analysis.total_chars == 0,
            r.analysis.total_size == 0,
            r.analysis.tree == (TreeStats { directories: 0, files: 0, max_depth: 0 }),
            r.analysis.largest_by_lines@.len() == 0,
            r.analysis.largest_by_tokens@.len() == 0,
            r.analysis.largest_by_size@.len() == 0,
            r.extension_stats@.len() == 0,
            r.skipped@.len() == 0,
            r.skipped_total == 0,
    {
        let analysis = ProjectAnalysis {
            project_name,
            project_type,
            root_path,
            processed_files: 0,
            skipped_files: 0,
            total_lines: 0,
            total_chars: 0,
            estimated_tokens: 0,
            total_size: 0,
            extension_breakdown: Vec::new(),
            largest_by_lines: Vec::new(),
            largest_by_tokens: Vec::new(),
            largest_by_size: Vec::new(),
            skipped_reasons: Vec::new(),
            tree: TreeStats { directories: 0, files: 0, max_depth: 0 },
            config: AnalysisConfigState { config_present, gitignore_enabled, max_file_size },
        };
        let r = AnalysisBuilder {
            analysis,
            extension_stats: Vec::new(),
            skipped: Vec::new(),
            skipped_total: 0,
            processed: Ghost(Seq::empty()),
        };
        assert(views(r.extension_stats@) =~= Seq::<ExtensionView>::empty());
        assert(views(r.skipped@) =~= Seq::<(Seq<char>, u64)>::empty());
        assert(keys_of(views(r.analysis.largest_by_lines@), by_lines()) =~= Seq::<u64>::empty());
        assert(keys_of(views(r.analysis.largest_by_tokens@), by_tokens()) =~= Seq::<u64>::empty());
        assert(keys_of(views(r.analysis.largest_by_size@), by_size()) =~= Seq::<u64>::empty());
        r
    }

    /// Notes an entry `depth` levels below the project root.
    pub fn note_depth(&mut self, depth: u64)
        requires
            old(self).wf(),
        ensures
            final(self).processed == old(self).processed,
            final(self).wf(),
            final(self).analysis.tree.max_depth == if depth > old(self).analysis.tree.max_depth {
                depth
            } else {
                old(self).analysis.tree.max_depth
            },
            final(self).analysis.tree.directories == old(self).analysis.tree.directories,
            final(self).analysis.tree.files == old(self).analysis.tree.files,
            same_but_tree(final(self).analysis, old(self).analysis),
            final(self).extension_stats == old(self).extension_stats,
            final(self).skipped == old(self).skipped,
            final(self).skipped_total == old(self).skipped_total,
    {
        if depth > self.analysis.tree.max_depth {
            self.analysis.tree.max_depth = depth;
        }
    }

    /// Counts one directory of the tree.
    pub fn record_directory(&mut self)
        requires
            old(self).wf(),
            old(self).analysis.tree.directories < u64::MAX,
        ensures
            final(self).processed == old(self).processed,
            final(self).wf(),
            final(self).analysis.tree.directories == old(self).analysis.tree.directories + 1,
            final(self).analysis.tree.files == old(self).analysis.tree.files,
            final(self).analysis.tree.max_depth == old(self).analysis.tree.max_depth,
            same_but_tree(final(self).analysis, old(self).analysis),
            final(self).extension_stats == old(self).extension_stats,
            final(self).skipped == old(self).skipped,
            final(self).skipped_total == old(self).skipped_total,
    {
        self.analysis.tree.directories = self.analysis.tree.directories + 1;
    }

    /// Counts one file of the tree, before the filters look at it.
    pub fn record_file_seen(&mut self)
        requires
            old(self).wf(),
            old(self).analysis.tree.files < u64::MAX,
        ensures
            final(self).processed == old(self).processed,
            final(self).wf(),
            final(self).analysis.tree.files == old(self).analysis.tree.files + 1,
            final(self).analysis.tree.directories == old(self).analysis.tree.directories,
            final(self).analysis.tree.max_depth == old(self).analysis.tree.max_depth,
            same_but_tree(final(self).analysis, old(self).analysis),
            final(self).extension_stats == old(self).extension_stats,
            final(self).skipped == old(self).skipped,
            final(self).skipped_total == old(self).skipped_total,
    {
        self.analysis.tree.files = self.analysis.tree.files + 1;
    }

    /// Counts one file skipped for `reason`.
    pub fn record_skip(&mut self, reason: SkipReason)
        requires
            old(self).wf(),
            old(self).skipped_total < u64::MAX,
        ensures
            final(self).processed == old(self).processed,
            final(self).wf(),
            views(final(self).skipped@) == reason_recorded(
                views(old(self).skipped@),
                reason_label(reason),
            ),
            final(self).skipped_total == old(self).skipped_total + 1,
            final(self).analysis == old(self).analysis,
            final(self).extension_stats == old(self).extension_stats,
    {
        let label = reason.label();
        let ghost s = views(self.skipped@);
        proof {
            lemma_name_position(s, reason_name(), label@);
            let p = name_position(s, reason_name(), label@) as int;
            if p < s.len() {
                lemma_sum_bound(s, p, reason_files());
            }
        }
        record_skipped_reason(&mut self.skipped, label);
        proof {
            let p = name_position(s, reason_name(), label@) as int;
            if p < s.len() {
                lemma_sum_update(s, p, (s[p].0, (s[p].1 + 1) as u64), reason_files());
            } else {
                lemma_sum_push(s, (label@, 1u64), reason_files());
            }
        }
        self.skipped_total = self.skipped_total + 1;
    }

    /// Whether one more processed file of `lines` lines, `chars` characters and `size` bytes
    /// keeps every total within range.
    pub fn can_record_file(&self, lines: u64, chars: u64, size: u64) -> (r: bool)
        ensures
            r == (self.analysis.processed_files < u64::MAX && self.analysis.total_lines + lines
                <= u64::MAX && self.analysis.total_chars + chars <= u64::MAX
                && self.analysis.total_size + size <= u64::MAX && chars + 3 <= u64::MAX),
    {
        self.analysis.processed_files < u64::MAX && lines <= u64::MAX - self.analysis.total_lines
            && chars <= u64::MAX - self.analysis.total_chars && size <= u64::MAX
            - self.analysis.total_size && chars <= u64::MAX - 3
    }

    /// Counts one processed file at `path` (relative to the project), grouped under
    /// `extension`, of `lines` lines, `chars` characters and `size` bytes.
    pub fn record_processed(
        &mut self,
        path: String,
        extension: String,
        lines: u64,
        chars: u64,
        size: u64,
    )
        requires
            old(self).wf(),
            old(self).analysis.processed_files < u64::MAX,
            old(self).analysis.total_lines + lines <= u64::MAX,
            old(self).analysis.total_chars + chars <= u64::MAX,
            old(self).analysis.total_size + size <= u64::MAX,
            chars + 3 <= u64::MAX,
        ensures
            final(self).processed@ == old(self).processed@.push(
                (path@, extension@, lines, chars, ((chars + 3) / 4) as u64, size),
            ),
            final(self).wf(),
            final(self).analysis.processed_files == old(self).analysis.processed_files + 1,
            final(self).analysis.total_lines == old(self).analysis.total_lines + lines,
            final(self).analysis.total_chars == old(self).analysis.total_chars + chars,
            final(self).analysis.total_size == old(self).analysis.total_size + size,
            views(final(self).extension_stats@) == ext_recorded(
                views(old(self).extension_stats@),
                extension@,
                lines,
                chars,
                ((chars + 3) / 4) as u64,
                size,
            ),
            views(final(self).analysis.largest_by_lines@) == top_insert(
                views(old(self).analysis.largest_by_lines@),
                (path@, extension@, lines, chars, ((chars + 3) / 4) as u64, size),
                by_lines(),
            ),
            views(final(self).analysis.largest_by_tokens@) == top_insert(
                views(old(self).analysis.largest_by_tokens@),
                (path@, extension@, lines, chars, ((chars + 3) / 4) as u64, size),
                by_tokens(),
            ),
            views(final(self).analysis.largest_by_size@) == top_insert(
                views(old(self).analysis.largest_by_size@),
                (path@, extension@, lines, chars, ((chars + 3) / 4) as u64, size),
                by_size(),
            ),
            final(self).analysis.tree == old(self).analysis.tree,
            final(self).analysis.project_name == old(self).analysis.project_name,
            final(self).analysis.project_type == old(self).analysis.project_type,
            final(self).analysis.root_path == old(self).analysis.root_path,
            final(self).analysis.config == old(self).analysis.config,
            final(self).analysis.skipped_files == old(self).analysis.skipped_files,
            final(self).analysis.estimated_tokens == old(self).analysis.estimated_tokens,
            final(self).analysis.extension_breakdown == old(self).analysis.extension_breakdown,
            final(self).analysis.skipped_reasons == old(self).analysis.skipped_reasons,
            final(self).skipped == old(self).skipped,
            final(self).skipped_total == old(self).skipped_total,
    {
        let ghost e = (path@, extension@, lines, chars, ((chars + 3) / 4) as u64, size);
        let ghost h = self.processed@;
        let tokens = estimate_tokens(chars);
        let ghost ev = views(self.extension_stats@);
        let ghost p = name_position(ev, ext_name(), extension@) as int;
        proof {
            lemma_name_position(ev, ext_name(), extension@);
            if p < ev.len() {
                lemma_sum_bound(ev, p, ext_files());
                lemma_sum_bound(ev, p, ext_lines());
                lemma_sum_bound(ev, p, ext_chars());
                lemma_sum_bound(ev, p, ext_size());
            }
        }
        record_extension_stats(&mut self.extension_stats, extension.as_str(), lines, chars, tokens, size);
        proof {
            let nv = views(self.extension_stats@);
            if p < ev.len() {
                let v = ev[p];
                let nw = (
                    v.0,
                    v.1,
                    (v.2 + 1) as u64,
                    (v.3 + lines) as u64,
                    (v.4 + chars) as u64,
                    (v.5 + tokens) as u64,
                    (v.6 + size) as u64,
                );
                assert(nv == ev.update(p, nw));
                lemma_sum_update(ev, p, nw, ext_files());
                lemma_sum_update(ev, p, nw, ext_lines());
                lemma_sum_update(ev, p, nw, ext_chars());
                lemma_sum_update(ev, p, nw, ext_size());
                lemma_sum_update(ev, p, nw, ext_tokens());
                assert forall|i: int| 0 <= i < nv.len() implies #[trigger] nv[i].5 <= nv[i].4 by {
                    if i != p {
                        assert(nv[i] == ev[i]);
                    }
                }
            } else {
                let nw = (extension@, language_of(extension@), 1u64, lines, chars, tokens, size);
                assert(nv == ev.push(nw));
                lemma_sum_push(ev, nw, ext_files());
                lemma_sum_push(ev, nw, ext_lines());
                lemma_sum_push(ev, nw, ext_chars());
                lemma_sum_push(ev, nw, ext_size());
                lemma_sum_push(ev, nw, ext_tokens());
                assert forall|i: int| 0 <= i < nv.len() implies #[trigger] nv[i].5 <= nv[i].4 by {
                    if i < ev.len() {
                        assert(nv[i] == ev[i]);
                    }
                }
            }
        }
        self.analysis.processed_files = self.analysis.processed_files + 1;
        self.analysis.total_lines = self.analysis.total_lines + lines;
        self.analysis.total_chars = self.analysis.total_chars + chars;
        self.analysis.total_size = self.analysis.total_size + size;
        let entry = AnalysisFileEntry {
            path,
            extension,
            lines,
            chars,
            estimated_tokens: tokens,
            size,
        };
        record_analysis_file(&mut self.analysis, entry);
        self.processed = Ghost(h.push(e));
        assert(h.push(e).drop_last() =~= h);
        proof {
            lemma_sum_push(h, e, by_tokens());
        }
    }

    /// The finished analysis: the token estimate from the character total, the totals by
    /// extension and the skip counts in report order, and the number of skipped files; each top
    /// list is the first ten of all processed files sorted by its quantity, ties in the order
    /// the files were processed.
    pub fn finish(self) -> (r: ProjectAnalysis)
        requires
            self.wf(),
            self.analysis.total_chars + 3 <= u64::MAX,
        ensures
            r.project_name == self.analysis.project_name,
            r.project_type == self.analysis.project_type,
            r.root_path == self.analysis.root_path,
            r.processed_files == self.analysis.processed_files,
            r.total_lines == self.analysis.total_lines,
            r.total_chars == self.analysis.total_chars,
            r.total_size == self.analysis.total_size,
            r.tree == self.analysis.tree,
            r.config == self.analysis.config,
            r.largest_by_lines == self.analysis.largest_by_lines,
            r.largest_by_tokens == self.analysis.largest_by_tokens,
            r.largest_by_size == self.analysis.largest_by_size,
            r.processed_files == self.processed@.len(),
            views(r.largest_by_lines@) == top_all(self.processed@, by_lines()),
            views(r.largest_by_tokens@) == top_all(self.processed@, by_tokens()),
            views(r.largest_by_size@) == top_all(self.processed@, by_size()),
            views(r.largest_by_lines@) == keep_top(ranked_all(self.processed@, by_lines())),
            views(r.largest_by_tokens@) == keep_top(ranked_all(self.processed@, by_tokens())),
            views(r.largest_by_size@) == keep_top(ranked_all(self.processed@, by_size())),
            sum_of(views(r.extension_breakdown@), ext_tokens()) == sum_of(
                self.processed@,
                by_tokens(),
            ),
            r.estimated_tokens == (self.analysis.total_chars + 3) / 4,
            r.skipped_files == self.skipped_total,
            views(r.extension_breakdown@).to_multiset() == views(
                self.extension_stats@,
            ).to_multiset(),
            strictly_ordered::<ExtensionStats>(views(r.extension_breakdown@)),
            views(r.skipped_reasons@).to_multiset() == views(self.skipped@).to_multiset(),
            strictly_ordered::<SkippedReasonStats>(views(r.skipped_reasons@)),
            analysis_consistent(r),
    {
        proof {
            law_top_list_is_top_of_all(self.processed@, by_lines());
            law_top_list_is_top_of_all(self.processed@, by_tokens());
            law_top_list_is_top_of_all(self.processed@, by_size());
        }
        let AnalysisBuilder { analysis, extension_stats, skipped, skipped_total, processed: _ } = self;
        let mut analysis = analysis;
        analysis.estimated_tokens = estimate_tokens(analysis.total_chars);
        let breakdown = sorted_extension_stats(extension_stats);
        let reasons = sorted_skipped_reasons(skipped);
        proof {
            lemma_sum_permutation(views(breakdown@), views(extension_stats@), ext_files());
            lemma_sum_permutation(views(breakdown@), views(extension_stats@), ext_lines());
            lemma_sum_permutation(views(breakdown@), views(extension_stats@), ext_chars());
            lemma_sum_permutation(views(breakdown@), views(extension_stats@), ext_size());
            lemma_sum_permutation(views(breakdown@), views(extension_stats@), ext_tokens());
            law_breakdown_by_lines(views(breakdown@));
            law_reasons_by_files(views(reasons@));
            assert forall|i: int, j: int| 0 <= i < j < reasons@.len() implies #[trigger] reasons@[i].files
                >= #[trigger] reasons@[j].files by {
                assert(views(reasons@)[i] == reasons@[i]@ && views(reasons@)[j] == reasons@[j]@);
            }
            lemma_sum_permutation(views(reasons@), views(skipped@), reason_files());
        }
        analysis.extension_breakdown = breakdown;
        analysis.skipped_reasons = reasons;
        analysis.skipped_files = skipped_total;
        analysis
    }
}

/// What a finished analysis keeps: the breakdown lists more lines first and the skip reasons
/// more files first; each extension and each skip reason appears once; the
/// totals are the sums of the totals by extension; the skipped count is the sum of the counts by
/// reason; the token estimate is a quarter of the characters rounded up; and the top lists are
/// in order and hold ten files each, or every processed file when fewer were processed.
pub open spec fn analysis_consistent(r: ProjectAnalysis) -> bool {
    let ev = views(r.extension_breakdown@);
    &&& forall|i: int, j: int| 0 <= i < j < ev.len() ==> #[trigger] ev[i].3 >= #[trigger] ev[j].3
    &&& forall|i: int, j: int|
        0 <= i < j < r.skipped_reasons@.len() ==> #[trigger] r.skipped_reasons@[i].files
            >= #[trigger] r.skipped_reasons@[j].files
    &&& names_unique(ev, ext_name())
    &&& names_unique(views(r.skipped_reasons@), reason_name())
    &&& sum_of(ev, ext_files()) == r.processed_files
    &&& sum_of(ev, ext_lines()) == r.total_lines
    &&& sum_of(ev, ext_chars()) == r.total_chars
    &&& sum_of(ev, ext_size()) == r.total_size
    &&& sum_of(views(r.skipped_reasons@), reason_files()) == r.skipped_files
    &&& r.estimated_tokens == (r.total_chars + 3) / 4
    &&& top_lists_wf(r)
    &&& r.largest_by_lines.len() == top_count(r.processed_files as nat)
    &&& r.largest_by_tokens.len() == top_count(r.processed_files as nat)
    &&& r.largest_by_size.len() == top_count(r.processed_files as nat)
}

// ---------------------------------------------------------------------------
// Full scans and their reports
// ---------------------------------------------------------------------------

/// Counters of a full scan: bytes of the files written out and files skipped.
pub struct ScanStats {
    pub total_size: u64,
    pub skipped: u64,
}

impl ScanStats {
    pub fn new() -> (r: ScanStats)
        ensures
            r.total_size == 0,
            r.skipped == 0,
    {
        ScanStats { total_size: 0, skipped: 0 }
    }

    /// Counts one skipped file.
    pub fn record_skip(&mut self)
        requires
            old(self).skipped < u64::MAX,
        ensures
            final(self).skipped == old(self).skipped + 1,
            final(self).total_size == old(self).total_size,
    {
        self.skipped = self.skipped + 1;
    }

    /// Counts the bytes of one file written out.
    pub fn add_size(&mut self, size: u64)
        requires
            old(self).total_size + size <= u64::MAX,
        ensures
            final(self).total_size == old(self).total_size + size,
            final(self).skipped == old(self).skipped,
    {
        self.total_size = self.total_size + size;
    }
}

/// Summary handed back once a scan finishes.
pub struct ProcessOutcome {
    pub project_name: String,
    pub project_type: String,
    pub output_paths: Vec<String>,
    pub processed_files: usize,
    pub skipped_files: u64,
    pub total_size: u64,
}

/// What the writing of a report meets: the start of a source file's block, or one written
/// line.
pub enum ReportEvent {
    FileStart,
    Line,
}

/// The bookkeeping of a report: the limit of lines per part, the part and the lines counted in
/// it.
pub type ReportState = (Option<u64>, u32, u64);

/// Whether the part being written has reached its limit.
pub open spec fn rotation_due(c: ReportState) -> bool {
    c.0 matches Some(max) && c.2 >= max
}

/// The bookkeeping after one event: a file's block starts a new part, with nothing counted,
/// when the current one has reached its limit; a line is counted in the current part.
pub open spec fn report_after(c: ReportState, e: ReportEvent) -> ReportState {
    match e {
        ReportEvent::FileStart => if rotation_due(c) {
            (c.0, (c.1 + 1) as u32, 0)
        } else {
            c
        },
        ReportEvent::Line => (c.0, c.1, (c.2 + 1) as u64),
    }
}

/// The bookkeeping after a run of events.
pub open spec fn report_run(c: ReportState, events: Seq<ReportEvent>) -> ReportState
    decreases events.len(),
{
    if events.len() == 0 {
        c
    } else {
        report_after(report_run(c, events.drop_last()), events.last())
    }
}

/// A source file's block is never split: while only lines are written, the part stays the same.
pub proof fn law_blocks_stay_in_one_part(c: ReportState, events: Seq<ReportEvent>)
    requires
        forall|i: int| 0 <= i < events.len() ==> #[trigger] events[i] is Line,
    ensures
        report_run(c, events).1 == c.1,
        report_run(c, events).0 == c.0,
    decreases events.len(),
{
    if events.len() > 0 {
        let init = events.drop_last();
        assert forall|i: int| 0 <= i < init.len() implies #[trigger] init[i] is Line by {
            assert(init[i] == events[i]);
        }
        law_blocks_stay_in_one_part(c, init);
        assert(events[events.len() - 1] is Line);
    }
}

/// With a limit set, a file block that starts when the current part has reached the limit
/// opens the next part, with nothing counted, whatever the part number; a block that starts
/// before the limit is reached, or without a limit, stays in the current part; only file blocks
/// open parts.
pub proof fn law_parts_rotate_at_the_limit(c: ReportState, e: ReportEvent)
    ensures
        e is FileStart && c.0 is Some && c.2 >= c.0->0 && c.1 < u32::MAX ==> report_after(c, e)
            == (c.0, (c.1 + 1) as u32, 0u64),
        e is FileStart && (c.0 is None || c.2 < c.0->0) ==> report_after(c, e) == c,
        e is Line && c.2 < u64::MAX ==> report_after(c, e).1 == c.1 && report_after(c, e).2 == c.2
            + 1,
        report_after(c, e).0 == c.0,
{
}

/// The line bookkeeping of a report split into parts: the limit of lines per part, the part
/// being written and the lines counted in it.
pub struct ReportCounter {
    pub max_lines: Option<u64>,
    pub part: u32,
    pub line_count: u64,
}

impl ReportCounter {
    /// A report at its first part, with nothing counted.
    pub fn new(max_lines: Option<u64>) -> (r: ReportCounter)
        ensures
            r.max_lines == max_lines,
            r.part == 1,
            r.line_count == 0,
    {
        ReportCounter { max_lines, part: 1, line_count: 0 }
    }

    /// Counts one written line.
    pub fn note_line(&mut self)
        requires
            old(self).line_count < u64::MAX,
        ensures
            final(self).line_count == old(self).line_count + 1,
            final(self).part == old(self).part,
            final(self).max_lines == old(self).max_lines,
    {
        self.line_count = self.line_count + 1;
    }

    /// Starts counting anew (once the folder tree is written, before the file contents).
    pub fn reset(&mut self)
        ensures
            final(self).line_count == 0,
            final(self).part == old(self).part,
            final(self).max_lines == old(self).max_lines,
    {
        self.line_count = 0;
    }

    /// Whether the next source file must go to a new part: there is a limit and the current
    /// part has reached it. Asked only between source files, so no file is split.
    pub fn needs_rotation(&self) -> (r: bool)
        ensures
            r == (self.max_lines matches Some(max) && self.line_count >= max),
    {
        match self.max_lines {
            Some(max) => self.line_count >= max,
            None => false,
        }
    }

    /// The bookkeeping as a triple: limit, part, lines counted.
    pub open spec fn state(&self) -> ReportState {
        (self.max_lines, self.part, self.line_count)
    }

    /// Takes one event of the writing (see `report_after`) and tells whether a new part starts,
    /// which happens only at the start of a file's block.
    pub fn step(&mut self, event: ReportEvent) -> (rotated: bool)
        requires
            event is FileStart ==> old(self).part < u32::MAX,
            event is Line ==> old(self).line_count < u64::MAX,
        ensures
            final(self).state() == report_after(old(self).state(), event),
            rotated == (event is FileStart && rotation_due(old(self).state())),
    {
        match event {
            ReportEvent::FileStart => {
                if self.needs_rotation() {
                    self.start_next_part();
                    true
                } else {
                    false
                }
            },
            ReportEvent::Line => {
                self.note_line();
                false
            },
        }
    }

    /// Moves to the next part, with nothing counted in it.
    pub fn start_next_part(&mut self)
        requires
            old(self).part < u32::MAX,
        ensures
            final(self).part == old(self).part + 1,
            final(self).line_count == 0,
            final(self).max_lines == old(self).max_lines,
    {
        self.part = self.part + 1;
        self.line_count = 0;
    }
}

} // verus!
