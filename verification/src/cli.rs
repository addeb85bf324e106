use vstd::prelude::*;

verus! {

/// The colons that may end a translated "Options:" heading: ASCII, full-width, Armenian full
/// stop and Armenian comma.
pub open spec fn is_heading_colon(c: char) -> bool {
    c == ':' || c == '：' || c == '։' || c == '՝'
}

/// `s` without its trailing heading colons (`str::trim_end_matches` with those characters).
pub open spec fn trim_end_colons(s: Seq<char>) -> Seq<char>
    decreases s.len(),
{
    if s.len() > 0 && is_heading_colon(s.last()) {
        trim_end_colons(s.drop_last())
    } else {
        s
    }
}

/// The help heading made of a translated "Options:" message: its trailing colons dropped, then
/// trimmed.
pub open spec fn heading_text(s: Seq<char>) -> Seq<char> {
    crate::text::trim(trim_end_colons(s))
}

/// The help heading made of a translated "Options:" message (see `heading_text`).
pub fn help_heading(text: &str) -> (r: String)
    ensures
        r@ == heading_text(text@),
{
    let cs = crate::text::chars_of(text);
    let mut e = cs.len();
    assert(cs@.take(e as int) =~= text@);
    while e > 0 && (cs[e - 1] == ':' || cs[e - 1] == '：' || cs[e - 1] == '։' || cs[e - 1] == '՝')
        invariant
            e <= cs.len(),
            cs@ == text@,
            trim_end_colons(text@) == trim_end_colons(cs@.take(e as int)),
        decreases e,
    {
        assert(cs@.take(e as int).drop_last() =~= cs@.take(e - 1));
        e = e - 1;
    }
    let (lo, hi) = crate::text::trim_range(&cs, 0, e);
    assert(cs@.subrange(0, e as int) =~= cs@.take(e as int));
    crate::text::string_from_range(&cs, lo, hi)
}

/// The command-line options of the scanner.
pub struct Args {
    /// Input directory (project to scan)
    pub input_dir: String,
    /// Output directory for reports
    pub output_dir: String,
    /// LOC mode: compute a lines/tokens summary for the target path
    pub loc: Option<String>,
    /// Ignore the project's .gitignore file
    pub no_gitignore: bool,
    /// Verbose mode
    pub verbose: bool,
    /// File extensions to ignore (e.g., --ignore .ts .js .json)
    pub ignore: Vec<String>,
    /// Split output into multiple files after this many lines (never breaks mid source file)
    pub max_output_lines: Option<u64>,
    /// Language for CLI messages
    pub lang: Option<String>,
}

/// The scan options the desktop front end sends along with its commands.
pub struct ScanOptions {
    pub no_gitignore: bool,
    pub verbose: bool,
    pub ignore: Vec<String>,
    pub max_output_lines: Option<u64>,
}

impl ScanOptions {
    /// The command-line options equivalent to these scan options for the given directories.
    pub fn into_args(self, input_dir: String, output_dir: String, loc: Option<String>) -> (r: Args)
        ensures
            r.input_dir == input_dir,
            r.output_dir == output_dir,
            r.loc == loc,
            r.no_gitignore == self.no_gitignore,
            r.verbose == self.verbose,
            r.ignore == self.ignore,
            r.max_output_lines == self.max_output_lines,
            r.lang is None,
    {
        Args {
            input_dir,
            output_dir,
            loc,
            no_gitignore: self.no_gitignore,
            verbose: self.verbose,
            ignore: self.ignore,
            max_output_lines: self.max_output_lines,
            lang: None,
        }
    }
}

/// Whether a path, given by the texts of its components (`Path::components`), is the default
/// input directory `./input` (or `input`), which the scanner creates when it is missing.
pub fn is_default_input_dir(components: &Vec<String>) -> (r: bool)
    ensures
        r == (crate::text::texts(components@) == seq![seq!['.'], seq!['i', 'n', 'p', 'u', 't']]
            || crate::text::texts(components@) == seq![seq!['i', 'n', 'p', 'u', 't']]),
{
    let ghost t = crate::text::texts(components@);
    let input = "input";
    let dot = ".";
    proof {
        reveal_strlit("input");
        reveal_strlit(".");
        assert(input@ =~= seq!['i', 'n', 'p', 'u', 't']);
        assert(dot@ =~= seq!['.']);
        assert(t.len() == components@.len());
        assert(seq![seq!['.'], seq!['i', 'n', 'p', 'u', 't']].len() == 2);
        assert(seq![seq!['i', 'n', 'p', 'u', 't']].len() == 1);
        if t == seq![seq!['i', 'n', 'p', 'u', 't']] {
            assert(t[0] == seq!['i', 'n', 'p', 'u', 't']);
        }
        if t == seq![seq!['.'], seq!['i', 'n', 'p', 'u', 't']] {
            assert(t[0] == seq!['.']);
            assert(t[1] == seq!['i', 'n', 'p', 'u', 't']);
        }
    }
    if components.len() == 1 {
        let r = crate::text::str_eq(components[0].as_str(), input);
        proof {
            assert(t[0] == components@[0]@);
            if r {
                assert(t =~= seq![seq!['i', 'n', 'p', 'u', 't']]);
            }
        }
        r
    } else if components.len() == 2 {
        let r = crate::text::str_eq(components[0].as_str(), dot) && crate::text::str_eq(
            components[1].as_str(),
            input,
        );
        proof {
            assert(t[0] == components@[0]@);
            assert(t[1] == components@[1]@);
            if r {
                assert(t =~= seq![seq!['.'], seq!['i', 'n', 'p', 'u', 't']]);
            }
        }
        r
    } else {
        false
    }
}

} // verus!
