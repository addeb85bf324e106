use vstd::prelude::*;
use vstd::utf8::*;
use crate::text::{
    ascii_lower, ascii_lower_char, ascii_lowercase, chars_of, lemma_prefix_len_step, prefix_len,
    replace_char, replaced_range, string_from_range, texts, trim, trim_range, strictly_sorted,
    text_lt, str_lt, str_eq, lemma_text_lt_total, lemma_text_lt_transitive,
    lemma_text_lt_irreflexive, decimal, lines, next_newline, lemma_lines_step, strip_cr,
    insert_sorted_unique, push_all, push_char, lemma_text_lt_asymmetric,
};

verus! {

broadcast use vstd::seq_lib::group_seq_properties;

// ---------------------------------------------------------------------------
// Right-to-left languages
// ---------------------------------------------------------------------------

/// A `-` or `_`, the characters that separate the subtags of a locale tag.
pub open spec fn subtag_separator() -> spec_fn(char) -> bool {
    |c: char| c == '-' || c == '_'
}

/// The first subtag of a locale tag: everything before its first `-` or `_`.
pub open spec fn primary_subtag(tag: Seq<char>) -> Seq<char> {
    tag.take(prefix_len(tag, subtag_separator()) as int)
}

/// The languages written right to left: Arabic, Hebrew, Persian and Urdu.
pub open spec fn is_rtl_language(lang: Seq<char>) -> bool {
    ||| lang == seq!['a', 'r']
    ||| lang == seq!['h', 'e']
    ||| lang == seq!['f', 'a']
    ||| lang == seq!['u', 'r']
}

/// Whether the locale `tag` names a language written right to left; its primary subtag is
/// compared without regard to ASCII case.
pub fn is_rtl_locale(tag: &str) -> (r: bool)
    ensures
        r == is_rtl_language(ascii_lowercase(primary_subtag(tag@))),
{
    let cs = chars_of(tag);
    let mut lang: Vec<char> = Vec::new();
    let mut i: usize = 0;
    while i < cs.len() && cs[i] != '-' && cs[i] != '_'
        invariant
            cs@ == tag@,
            0 <= i <= cs.len(),
            prefix_len(tag@, subtag_separator()) == i + prefix_len(
                tag@.subrange(i as int, tag@.len() as int),
                subtag_separator(),
            ),
            lang@ == ascii_lowercase(tag@.take(i as int)),
        decreases cs.len() - i,
    {
        proof {
            lemma_prefix_len_step(tag@, i as int, tag@.len() as int, subtag_separator());
        }
        lang.push(ascii_lower_char(cs[i]));
        i = i + 1;
        assert(ascii_lowercase(tag@.take(i as int)) =~= ascii_lowercase(tag@.take(i - 1)).push(
            ascii_lower(tag@[i - 1]),
        ));
    }
    proof {
        assert(tag@ =~= tag@.subrange(0, tag@.len() as int));
        if i < cs.len() {
            lemma_prefix_len_step(tag@, i as int, tag@.len() as int, subtag_separator());
        }
        assert(primary_subtag(tag@) == tag@.take(i as int));
    }
    if lang.len() != 2 {
        return false;
    }
    assert(lang@ =~= seq![lang@[0], lang@[1]]);
    (lang[0] == 'a' && lang[1] == 'r') || (lang[0] == 'h' && lang[1] == 'e') || (lang[0] == 'f'
        && lang[1] == 'a') || (lang[0] == 'u' && lang[1] == 'r')
}

// ---------------------------------------------------------------------------
// The `--lang` option
// ---------------------------------------------------------------------------

/// The text of an optional string.
pub open spec fn opt_text(o: Option<String>) -> Option<Seq<char>> {
    match o {
        Some(s) => Some(s@),
        None => None,
    }
}

/// `--lang`
pub open spec fn lang_option() -> Seq<char> {
    seq!['-', '-', 'l', 'a', 'n', 'g']
}

/// `--lang=`
pub open spec fn lang_assignment() -> Seq<char> {
    seq!['-', '-', 'l', 'a', 'n', 'g', '=']
}

/// The language the arguments ask for: the argument after the first `--lang` (none if it is
/// missing or empty), or the non-empty value of a `--lang=VALUE` met before it.
pub open spec fn lang_from_args(args: Seq<Seq<char>>) -> Option<Seq<char>>
    decreases args.len(),
{
    if args.len() == 0 {
        None
    } else if args[0] == lang_option() {
        if args.len() > 1 && args[1].len() > 0 {
            Some(args[1])
        } else {
            None
        }
    } else if args[0].len() > 7 && args[0].take(7) == lang_assignment() {
        Some(args[0].skip(7))
    } else {
        lang_from_args(args.drop_first())
    }
}

/// The arguments after the program name.
pub open spec fn program_args(argv: Seq<Seq<char>>) -> Seq<Seq<char>> {
    if argv.len() == 0 {
        argv
    } else {
        argv.skip(1)
    }
}

/// The language asked for on the command line `argv` (program name first), before the full
/// argument parser runs.
pub fn peek_argv_lang(argv: &Vec<String>) -> (r: Option<String>)
    ensures
        opt_text(r) == lang_from_args(program_args(texts(argv@))),
{
    let ghost all = texts(argv@);
    if argv.len() == 0 {
        return None;
    }
    let mut i: usize = 1;
    while i < argv.len()
        invariant
            all == texts(argv@),
            1 <= i <= argv.len(),
            lang_from_args(all.skip(1)) == lang_from_args(all.skip(i as int)),
        decreases argv.len() - i,
    {
        let cs = chars_of(argv[i].as_str());
        let ghost rest = all.skip(i as int);
        assert(rest[0] == cs@);
        let is_option = cs.len() == 6 && cs[0] == '-' && cs[1] == '-' && cs[2] == 'l' && cs[3]
            == 'a' && cs[4] == 'n' && cs[5] == 'g';
        assert(is_option == (cs@ == lang_option())) by {
            if cs@ == lang_option() {
                assert(cs@[2] == 'l');
            }
            if is_option {
                assert(cs@ =~= lang_option());
            }
        }
        if is_option {
            if i + 1 < argv.len() && !argv[i + 1].as_str().is_empty() {
                assert(rest[1] == argv@[i + 1]@);
                return Some(argv[i + 1].clone());
            }
            proof {
                if i + 1 < argv.len() {
                    assert(rest[1] == argv@[i + 1]@);
                }
            }
            return None;
        }
        let is_assignment = cs.len() > 7 && cs[0] == '-' && cs[1] == '-' && cs[2] == 'l' && cs[3]
            == 'a' && cs[4] == 'n' && cs[5] == 'g' && cs[6] == '=';
        assert(is_assignment == (cs@.len() > 7 && cs@.take(7) == lang_assignment())) by {
            if cs@.len() > 7 && cs@.take(7) == lang_assignment() {
                assert(cs@.take(7)[2] == 'l');
                assert(cs@.take(7)[6] == '=');
            }
            if is_assignment {
                assert(cs@.take(7) =~= lang_assignment());
            }
        }
        if is_assignment {
            return Some(string_from_range(&cs, 7, cs.len()));
        }
        assert(rest.drop_first() =~= all.skip(i + 1));
        i = i + 1;
    }
    assert(all.skip(i as int) =~= Seq::<Seq<char>>::empty());
    None
}

// ---------------------------------------------------------------------------
// Locale tags
// ---------------------------------------------------------------------------

/// A requested tag after cleaning: trimmed, `_` turned into `-`; nothing when blank.
pub open spec fn cleaned_tag(raw: Seq<char>) -> Option<Seq<char>> {
    if trim(raw).len() == 0 {
        None
    } else {
        Some(replace_char(trim(raw), '_', '-'))
    }
}

/// Trims a requested locale tag and writes `_` as `-`; a blank tag gives nothing.
pub fn clean_tag(raw: &str) -> (r: Option<String>)
    ensures
        opt_text(r) == cleaned_tag(raw@),
{
    let cs = chars_of(raw);
    let (lo, hi) = trim_range(&cs, 0, cs.len());
    assert(cs@.subrange(0, cs@.len() as int) =~= raw@);
    if lo == hi {
        return None;
    }
    Some(replaced_range(&cs, lo, hi, '_', '-'))
}

// ---------------------------------------------------------------------------
// Language identifiers
// ---------------------------------------------------------------------------

/// A parsed locale identifier: its canonical text (e.g. `pt-BR`) and its language subtag
/// (e.g. `pt`).
pub struct LangId {
    pub tag: String,
    pub language: String,
}

impl View for LangId {
    type V = (Seq<char>, Seq<char>);

    open spec fn view(&self) -> (Seq<char>, Seq<char>) {
        (self.tag@, self.language@)
    }
}

impl LangId {
    /// A copy holding the same texts.
    pub fn copy(&self) -> (r: LangId)
        ensures
            r@ == self@,
    {
        LangId { tag: self.tag.clone(), language: self.language.clone() }
    }
}

/// What `unic_langid::LanguageIdentifier::from_str` makes of `tag`: nothing when it does not
/// parse, else the identifier's text (its `Display`) and its language subtag's text.
pub uninterp spec fn language_identifier(tag: Seq<char>) -> Option<(Seq<char>, Seq<char>)>;

/// Parses `tag` with `unic_langid::LanguageIdentifier::from_str` and returns the canonical text of
/// the identifier and of its language subtag. The parse is a function of the tag alone; its
/// result is named by `language_identifier`.
#[verifier::external_body]
fn parse_language_identifier(tag: &str) -> (r: Option<LangId>)
    ensures
        match r {
            Some(id) => language_identifier(tag@) == Some(id@),
            None => language_identifier(tag@) is None,
        },
{
    match tag.parse::<unic_langid::LanguageIdentifier>() {
        Ok(id) => Some(LangId { tag: id.to_string(), language: id.language.to_string() }),
        Err(_) => None,
    }
}

/// The texts of a sequence of identifiers.
pub open spec fn id_views(ids: Seq<LangId>) -> Seq<(Seq<char>, Seq<char>)> {
    ids.map_values(|id: LangId| id@)
}

/// The first identifier whose text is `tag`.
pub open spec fn first_with_tag(ids: Seq<(Seq<char>, Seq<char>)>, tag: Seq<char>) -> Option<
    (Seq<char>, Seq<char>),
>
    decreases ids.len(),
{
    if ids.len() == 0 {
        None
    } else if ids[0].0 == tag {
        Some(ids[0])
    } else {
        first_with_tag(ids.drop_first(), tag)
    }
}

/// The first identifier whose language subtag is `language`.
pub open spec fn first_with_language(ids: Seq<(Seq<char>, Seq<char>)>, language: Seq<char>) -> Option<
    (Seq<char>, Seq<char>),
>
    decreases ids.len(),
{
    if ids.len() == 0 {
        None
    } else if ids[0].1 == language {
        Some(ids[0])
    } else {
        first_with_language(ids.drop_first(), language)
    }
}

/// The available identifier that a requested tag selects: the same identifier if it is
/// available, else the first one of the same language; nothing if the tag does not parse.
pub open spec fn matched_locale(requested: Seq<char>, ids: Seq<(Seq<char>, Seq<char>)>) -> Option<
    (Seq<char>, Seq<char>),
> {
    match language_identifier(requested) {
        None => None,
        Some(req) => match first_with_tag(ids, req.0) {
            Some(exact) => Some(exact),
            None => first_with_language(ids, req.1),
        },
    }
}

proof fn lemma_skip_step<A>(s: Seq<A>, i: int)
    requires
        0 <= i < s.len(),
    ensures
        s.skip(i).drop_first() == s.skip(i + 1),
        s.skip(i)[0] == s[i],
        s.skip(i).len() > 0,
{
    assert(s.skip(i).drop_first() =~= s.skip(i + 1));
}

/// Picks the available identifier for `requested`: an exact match first, else the first one
/// with the same language.
pub fn match_available(requested: &str, available: &Vec<LangId>) -> (r: Option<LangId>)
    ensures
        match r {
            Some(id) => matched_locale(requested@, id_views(available@)) == Some(id@),
            None => matched_locale(requested@, id_views(available@)) is None,
        },
{
    let req = match parse_language_identifier(requested) {
        Some(id) => id,
        None => {
            return None;
        },
    };
    let ghost all = id_views(available@);
    let mut i: usize = 0;
    assert(all.skip(0) =~= all);
    while i < available.len()
        invariant
            all == id_views(available@),
            language_identifier(requested@) == Some(req@),
            0 <= i <= available.len(),
            first_with_tag(all, req.tag@) == first_with_tag(all.skip(i as int), req.tag@),
        decreases available.len() - i,
    {
        proof {
            lemma_skip_step(all, i as int);
            assert(all[i as int] == available@[i as int]@);
        }
        if crate::text::str_eq(available[i].tag.as_str(), req.tag.as_str()) {
            return Some(available[i].copy());
        }
        i = i + 1;
    }
    assert(all.skip(i as int) =~= Seq::<(Seq<char>, Seq<char>)>::empty());
    let mut j: usize = 0;
    while j < available.len()
        invariant
            all == id_views(available@),
            language_identifier(requested@) == Some(req@),
            0 <= j <= available.len(),
            first_with_tag(all, req.tag@) is None,
            first_with_language(all, req.language@) == first_with_language(
                all.skip(j as int),
                req.language@,
            ),
        decreases available.len() - j,
    {
        proof {
            lemma_skip_step(all, j as int);
            assert(all[j as int] == available@[j as int]@);
        }
        if crate::text::str_eq(available[j].language.as_str(), req.language.as_str()) {
            return Some(available[j].copy());
        }
        j = j + 1;
    }
    assert(all.skip(j as int) =~= Seq::<(Seq<char>, Seq<char>)>::empty());
    None
}

// ---------------------------------------------------------------------------
// Message catalogs
// ---------------------------------------------------------------------------

/// Decodes `bytes` with `std::str::from_utf8`: text exactly when the bytes are well-formed UTF-8,
/// and then the characters they encode.
#[verifier::external_body]
fn utf8_text(bytes: &[u8]) -> (r: Option<String>)
    ensures
        r is Some <==> valid_utf8(bytes@),
        r matches Some(t) ==> t@ == decode_utf8(bytes@),
{
    match std::str::from_utf8(bytes) {
        Ok(text) => Some(text.to_string()),
        Err(_) => None,
    }
}

/// `.ftl`, the extension of a catalog file.
pub open spec fn ftl_suffix() -> Seq<char> {
    seq!['.', 'f', 't', 'l']
}

/// Whether `s` ends with `suffix`.
pub open spec fn ends_with(s: Seq<char>, suffix: Seq<char>) -> bool {
    s.len() >= suffix.len() && s.skip(s.len() - suffix.len()) == suffix
}

/// `s` without every trailing `.ftl` (`str::trim_end_matches(".ftl")`).
pub open spec fn strip_ftl(s: Seq<char>) -> Seq<char>
    decreases s.len(),
{
    if ends_with(s, ftl_suffix()) {
        strip_ftl(s.take(s.len() - 4))
    } else {
        s
    }
}

/// The locale a catalog file stands for: its name without the `.ftl` extension and with `_`
/// written as `-`; nothing for a file that is not a catalog.
pub open spec fn catalog_locale(name: Seq<char>) -> Option<Seq<char>> {
    if ends_with(name, ftl_suffix()) {
        Some(replace_char(strip_ftl(name), '_', '-'))
    } else {
        None
    }
}

/// The name and bytes of each file.
pub open spec fn file_views(files: Seq<(String, Vec<u8>)>) -> Seq<(Seq<char>, Seq<u8>)> {
    files.map_values(|f: (String, Vec<u8>)| (f.0@, f.1@))
}

/// The catalogs held by a list of files: each catalog file that is well-formed UTF-8 gives its
/// text to its locale; a later file replaces an earlier one of the same locale.
pub open spec fn catalog_model(files: Seq<(Seq<char>, Seq<u8>)>) -> Map<Seq<char>, Seq<char>>
    decreases files.len(),
{
    if files.len() == 0 {
        Map::empty()
    } else {
        let earlier = catalog_model(files.drop_last());
        let (name, bytes) = files.last();
        match catalog_locale(name) {
            Some(locale) => if valid_utf8(bytes) {
                earlier.insert(locale, decode_utf8(bytes))
            } else {
                earlier
            },
            None => earlier,
        }
    }
}

/// Catalog texts by locale, kept in the order of their locale tags.
pub struct CatalogMap {
    entries: Vec<(String, String)>,
}

/// `en-US`, the locale every other falls back to.
pub open spec fn fallback_locale() -> Seq<char> {
    seq!['e', 'n', '-', 'U', 'S']
}

impl CatalogMap {
    /// The locale tags, in order.
    pub closed spec fn keys(self) -> Seq<Seq<char>> {
        self.entries@.map_values(|e: (String, String)| e.0@)
    }

    closed spec fn texts_of(self) -> Seq<Seq<char>> {
        self.entries@.map_values(|e: (String, String)| e.1@)
    }

    #[verifier::type_invariant]
    closed spec fn sorted(self) -> bool {
        strictly_sorted(self.keys())
    }

    /// No catalogs.
    pub fn new() -> (r: CatalogMap)
        ensures
            r@ == Map::<Seq<char>, Seq<char>>::empty(),
            strictly_sorted(r.keys()),
    {
        let r = CatalogMap { entries: Vec::new() };
        assert(r@ =~= Map::<Seq<char>, Seq<char>>::empty());
        r
    }

    /// Sets the text of `locale`, replacing an earlier one.
    pub fn insert(&mut self, locale: String, text: String)
        ensures
            final(self)@ == old(self)@.insert(locale@, text@),
            strictly_sorted(final(self).keys()),
    {
        proof {
            use_type_invariant(&*self);
        }
        let mut entries: Vec<(String, String)> = Vec::new();
        std::mem::swap(&mut entries, &mut self.entries);
        let ghost old_map = old(self)@;
        let ghost ks = entries@.map_values(|e: (String, String)| e.0@);
        let ghost vs = entries@.map_values(|e: (String, String)| e.1@);
        assert(strictly_sorted(ks));
        assert(ks == old(self).keys());
        assert(vs == old(self).texts_of());
        let mut i: usize = 0;
        let mut stop = false;
        while i < entries.len() && !stop
            invariant
                ks == entries@.map_values(|e: (String, String)| e.0@),
                strictly_sorted(ks),
                0 <= i <= entries.len(),
                stop ==> i < entries.len() && !text_lt(ks[i as int], locale@),
                forall|j: int| 0 <= j < i ==> text_lt(#[trigger] ks[j], locale@),
            decreases entries.len() - i, (if stop { 0int } else { 1int }),
        {
            assert(ks[i as int] == entries@[i as int].0@);
            if str_lt(entries[i].0.as_str(), locale.as_str()) {
                i = i + 1;
            } else {
                stop = true;
            }
        }
        let ghost at = i as int;
        let same = stop && str_eq(entries[i].0.as_str(), locale.as_str());
        if same {
            assert(ks[at] == locale@);
            entries.set(i, (locale, text));
            let ghost nks = entries@.map_values(|e: (String, String)| e.0@);
            let ghost nvs = entries@.map_values(|e: (String, String)| e.1@);
            assert(nks =~= ks);
            self.entries = entries;
            proof {
                assert(self.keys() == nks);
                assert(self.texts_of() == nvs);
                assert forall|k: Seq<char>| #![auto] self@.contains_key(k) == old_map.insert(
                    locale@,
                    text@,
                ).contains_key(k) by {}
                assert forall|k: Seq<char>| #![auto] self@.contains_key(k) implies self@[k]
                    == old_map.insert(locale@, text@)[k] by {
                    let p = nks.index_of(k);
                    lemma_unique_index(nks, p);
                    if k != locale@ {
                        assert(nvs[p] == vs[p]);
                        lemma_unique_index(ks, p);
                    } else {
                        lemma_unique_index(nks, at);
                    }
                }
                assert(self@ =~= old_map.insert(locale@, text@));
            }
        } else {
            proof {
                if stop {
                    lemma_text_lt_total(ks[at], locale@);
                }
                assert forall|j: int| at <= j < ks.len() implies text_lt(locale@, #[trigger] ks[j]) by {
                    if j > at {
                        assert(text_lt(ks[at], ks[j]));
                        lemma_text_lt_transitive(locale@, ks[at], ks[j]);
                    }
                }
            }
            entries.insert(i, (locale, text));
            let ghost nks = entries@.map_values(|e: (String, String)| e.0@);
            let ghost nvs = entries@.map_values(|e: (String, String)| e.1@);
            assert(nks =~= ks.take(at).push(locale@) + ks.skip(at));
            assert(nvs =~= vs.take(at).push(text@) + vs.skip(at));
            assert forall|a: int, b: int| 0 <= a < b < nks.len() implies text_lt(
                #[trigger] nks[a],
                #[trigger] nks[b],
            ) by {
                if b < at {
                } else if a < at && b == at {
                } else if a < at && b > at {
                    lemma_text_lt_transitive(ks[a], locale@, ks[b - 1]);
                } else if a == at {
                } else {
                    assert(nks[a] == ks[a - 1]);
                    assert(nks[b] == ks[b - 1]);
                }
            }
            self.entries = entries;
            proof {
                assert(self.keys() == nks);
                assert(self.texts_of() == nvs);
                assert forall|k: Seq<char>| self@.contains_key(k) <==> old_map.insert(
                    locale@,
                    text@,
                ).contains_key(k) by {
                    if nks.contains(k) {
                        let p = choose|p: int| 0 <= p < nks.len() && nks[p] == k;
                        if p < at {
                            assert(ks[p] == k);
                        } else if p > at {
                            assert(ks[p - 1] == k);
                        }
                    }
                    if ks.contains(k) {
                        let p = choose|p: int| 0 <= p < ks.len() && ks[p] == k;
                        if p < at {
                            assert(nks[p] == k);
                        } else {
                            assert(nks[p + 1] == k);
                        }
                    }
                    if k == locale@ {
                        assert(nks[at] == k);
                    }
                }
                assert forall|k: Seq<char>| #![auto] self@.contains_key(k) implies self@[k]
                    == old_map.insert(locale@, text@)[k] by {
                    let p = nks.index_of(k);
                    lemma_unique_index(nks, p);
                    assert(self@[k] == nvs[p]);
                    lemma_text_lt_irreflexive(locale@);
                    if p == at {
                        assert(nvs[at] == text@);
                    }
                    if p < at {
                        assert(ks[p] == k);
                        lemma_unique_index(ks, p);
                        assert(old_map[k] == vs[p]);
                    } else if p > at {
                        assert(ks[p - 1] == k);
                        lemma_unique_index(ks, p - 1);
                        assert(old_map[k] == vs[p - 1]);
                    }
                }
                assert(self@ =~= old_map.insert(locale@, text@));
            }
        }
    }
}

impl View for CatalogMap {
    type V = Map<Seq<char>, Seq<char>>;

    /// The text of each locale.
    closed spec fn view(&self) -> Map<Seq<char>, Seq<char>> {
        Map::new(
            |k: Seq<char>| self.keys().contains(k),
            |k: Seq<char>| self.texts_of()[self.keys().index_of(k)],
        )
    }
}

/// The locale tags of a catalog map are the locales that have a catalog.
pub proof fn lemma_keys_are_locales(m: CatalogMap)
    ensures
        m.keys().to_set() == m@.dom(),
{
    assert(m.keys().to_set() =~= m@.dom());
}

/// Two strictly sorted sequences of the same texts are the same sequence: the tags of a
/// catalog map are the locales that have a catalog, in sorted order.
pub proof fn lemma_sorted_texts_unique(a: Seq<Seq<char>>, b: Seq<Seq<char>>)
    requires
        strictly_sorted(a),
        strictly_sorted(b),
        a.to_set() == b.to_set(),
    ensures
        a == b,
    decreases a.len(),
{
    if a.len() == 0 {
        if b.len() > 0 {
            assert(a.to_set().contains(b[0]));
        }
        assert(a =~= b);
    } else {
        if b.len() == 0 {
            assert(b.to_set().contains(a[0]));
        }
        assert(b.to_set().contains(a[0]));
        assert(a.to_set().contains(b[0]));
        if a[0] != b[0] {
            let j = choose|j: int| 0 <= j < b.len() && b[j] == a[0];
            let i = choose|i: int| 0 <= i < a.len() && a[i] == b[0];
            assert(j > 0 && i > 0);
            assert(text_lt(b[0], b[j]));
            assert(text_lt(a[0], a[i]));
            lemma_text_lt_asymmetric(a[0], b[0]);
        }
        let ta = a.drop_first();
        let tb = b.drop_first();
        assert(strictly_sorted(ta)) by {
            assert forall|x: int, y: int| 0 <= x < y < ta.len() implies text_lt(
                #[trigger] ta[x],
                #[trigger] ta[y],
            ) by {
                assert(ta[x] == a[x + 1] && ta[y] == a[y + 1]);
            }
        }
        assert(strictly_sorted(tb)) by {
            assert forall|x: int, y: int| 0 <= x < y < tb.len() implies text_lt(
                #[trigger] tb[x],
                #[trigger] tb[y],
            ) by {
                assert(tb[x] == b[x + 1] && tb[y] == b[y + 1]);
            }
        }
        assert(ta.to_set() =~= tb.to_set()) by {
            assert forall|x: Seq<char>| ta.to_set().contains(x) implies tb.to_set().contains(x) by {
                let i = choose|i: int| 0 <= i < ta.len() && ta[i] == x;
                assert(a[i + 1] == x);
                assert(text_lt(a[0], x));
                lemma_text_lt_irreflexive(x);
                assert(b.to_set().contains(x));
                let j = choose|j: int| 0 <= j < b.len() && b[j] == x;
                assert(j != 0);
                assert(tb[j - 1] == x);
            }
            assert forall|x: Seq<char>| tb.to_set().contains(x) implies ta.to_set().contains(x) by {
                let j = choose|j: int| 0 <= j < tb.len() && tb[j] == x;
                assert(b[j + 1] == x);
                assert(text_lt(b[0], x));
                lemma_text_lt_irreflexive(x);
                assert(a.to_set().contains(x));
                let i = choose|i: int| 0 <= i < a.len() && a[i] == x;
                assert(i != 0);
                assert(ta[i - 1] == x);
            }
        }
        lemma_sorted_texts_unique(ta, tb);
        assert(a =~= seq![a[0]] + ta);
        assert(b =~= seq![b[0]] + tb);
    }
}

/// In a strictly sorted sequence each element stands at one place only.
proof fn lemma_unique_index(s: Seq<Seq<char>>, i: int)
    requires
        strictly_sorted(s),
        0 <= i < s.len(),
    ensures
        s.index_of(s[i]) == i,
{
    assert(s.contains(s[i]));
    let c = s.index_of(s[i]);
    assert(0 <= c < s.len() && s[c] == s[i]);
    if c < i {
        assert(text_lt(s[c], s[i]));
        lemma_text_lt_irreflexive(s[i]);
    } else if c > i {
        assert(text_lt(s[i], s[c]));
        lemma_text_lt_irreflexive(s[i]);
    }
}

/// Whether `cs[..end]` ends with `.ftl`.
fn ends_with_ftl(cs: &Vec<char>, end: usize) -> (b: bool)
    requires
        end <= cs.len(),
    ensures
        b == ends_with(cs@.take(end as int), ftl_suffix()),
{
    let b = end >= 4 && cs[end - 4] == '.' && cs[end - 3] == 'f' && cs[end - 2] == 't' && cs[end
        - 1] == 'l';
    proof {
        let t = cs@.take(end as int);
        if end >= 4 {
            let tail = t.skip(end - 4);
            if b {
                assert(tail =~= ftl_suffix());
            }
            if tail == ftl_suffix() {
                assert(tail[0] == '.' && tail[1] == 'f' && tail[2] == 't' && tail[3] == 'l');
            }
        }
    }
    b
}

/// The locale a catalog file stands for, if it is a catalog file.
fn catalog_file_locale(name: &str) -> (r: Option<String>)
    ensures
        opt_text(r) == catalog_locale(name@),
{
    let cs = chars_of(name);
    let n = cs.len();
    assert(cs@.take(n as int) =~= name@);
    if !ends_with_ftl(&cs, n) {
        return None;
    }
    let mut end = n;
    while ends_with_ftl(&cs, end)
        invariant
            end <= cs.len(),
            cs@ == name@,
            strip_ftl(name@) == strip_ftl(cs@.take(end as int)),
        decreases end,
    {
        assert(cs@.take(end as int).take(end - 4) =~= cs@.take(end - 4));
        end = end - 4;
    }
    assert(cs@.subrange(0, end as int) =~= cs@.take(end as int));
    Some(replaced_range(&cs, 0, end, '_', '-'))
}

/// The catalogs found among the named files (see `catalog_model`).
pub fn catalog_map(files: &Vec<(String, Vec<u8>)>) -> (r: CatalogMap)
    ensures
        r@ == catalog_model(file_views(files@)),
        strictly_sorted(r.keys()),
{
    let mut map = CatalogMap::new();
    let ghost fv = file_views(files@);
    let mut i: usize = 0;
    assert(fv.take(0) =~= Seq::<(Seq<char>, Seq<u8>)>::empty());
    while i < files.len()
        invariant
            fv == file_views(files@),
            0 <= i <= files.len(),
            map@ == catalog_model(fv.take(i as int)),
        decreases files.len() - i,
    {
        assert(fv.take(i + 1).drop_last() =~= fv.take(i as int));
        assert(fv.take(i + 1).last() == (files@[i as int].0@, files@[i as int].1@));
        match catalog_file_locale(files[i].0.as_str()) {
            Some(locale) => {
                match utf8_text(files[i].1.as_slice()) {
                    Some(text) => {
                        map.insert(locale, text);
                    },
                    None => {},
                }
            },
            None => {},
        }
        i = i + 1;
    }
    assert(fv.take(files.len() as int) =~= fv);
    proof {
        use_type_invariant(&map);
    }
    map
}

/// All catalogs found among the named files.
pub fn all_catalogs(files: &Vec<(String, Vec<u8>)>) -> (r: CatalogMap)
    ensures
        r@ == catalog_model(file_views(files@)),
        strictly_sorted(r.keys()),
{
    catalog_map(files)
}

/// The text of the catalog of `locale`, if there is one.
pub fn catalog_source(catalogs: &CatalogMap, locale: &str) -> (r: Option<String>)
    ensures
        match r {
            Some(text) => catalogs@.contains_key(locale@) && catalogs@[locale@] == text@,
            None => !catalogs@.contains_key(locale@),
        },
{
    proof {
        use_type_invariant(catalogs);
    }
    let ghost ks = catalogs.keys();
    let mut i: usize = 0;
    while i < catalogs.entries.len()
        invariant
            ks == catalogs.keys(),
            strictly_sorted(ks),
            0 <= i <= catalogs.entries.len(),
            forall|j: int| 0 <= j < i ==> ks[j] != locale@,
        decreases catalogs.entries.len() - i,
    {
        assert(ks[i as int] == catalogs.entries@[i as int].0@);
        if str_eq(catalogs.entries[i].0.as_str(), locale) {
            proof {
                lemma_unique_index(ks, i as int);
            }
            return Some(catalogs.entries[i].1.clone());
        }
        i = i + 1;
    }
    None
}

/// Whether `s` is `en-US`.
fn is_fallback_locale(s: &str) -> (r: bool)
    ensures
        r == (s@ == fallback_locale()),
{
    let cs = chars_of(s);
    let r = cs.len() == 5 && cs[0] == 'e' && cs[1] == 'n' && cs[2] == '-' && cs[3] == 'U' && cs[4]
        == 'S';
    proof {
        if r {
            assert(cs@ =~= fallback_locale());
        }
        if s@ == fallback_locale() {
            assert(cs@[3] == 'U');
        }
    }
    r
}

proof fn lemma_sorted_subrange(s: Seq<Seq<char>>, p: int)
    requires
        strictly_sorted(s),
        0 <= p < s.len(),
    ensures
        strictly_sorted(s.remove(p)),
        s.remove(p).no_duplicates(),
{
    let t = s.remove(p);
    assert forall|a: int, b: int| 0 <= a < b < t.len() implies text_lt(#[trigger] t[a], #[trigger] t[b]) by {
        let x = if a < p { a } else { a + 1 };
        let y = if b < p { b } else { b + 1 };
        assert(t[a] == s[x] && t[b] == s[y]);
    }
    lemma_sorted_no_duplicates(t);
}

proof fn lemma_sorted_no_duplicates(s: Seq<Seq<char>>)
    requires
        strictly_sorted(s),
    ensures
        s.no_duplicates(),
{
    assert forall|a: int, b: int| 0 <= a < s.len() && 0 <= b < s.len() && a != b implies s[a]
        != s[b] by {
        lemma_text_lt_irreflexive(s[a]);
        if a < b {
            assert(text_lt(s[a], s[b]));
        } else {
            assert(text_lt(s[b], s[a]));
        }
    }
}

proof fn lemma_move_to_front(ks: Seq<Seq<char>>, p: int)
    requires
        strictly_sorted(ks),
        0 <= p < ks.len(),
    ensures
        (seq![ks[p]] + ks.remove(p)).to_set() == ks.to_set(),
        (seq![ks[p]] + ks.remove(p)).no_duplicates(),
        strictly_sorted((seq![ks[p]] + ks.remove(p)).drop_first()),
{
    let t = seq![ks[p]] + ks.remove(p);
    lemma_sorted_subrange(ks, p);
    assert(t.drop_first() =~= ks.remove(p));
    assert forall|x: Seq<char>| t.to_set().contains(x) <==> ks.to_set().contains(x) by {
        if ks.contains(x) {
            let q = choose|q: int| 0 <= q < ks.len() && ks[q] == x;
            if q < p {
                assert(t[q + 1] == x);
            } else if q > p {
                assert(t[q] == x);
            } else {
                assert(t[0] == x);
            }
        }
        if t.contains(x) {
            let q = choose|q: int| 0 <= q < t.len() && t[q] == x;
            if q == 0 {
                assert(ks[p] == x);
            } else if q - 1 < p {
                assert(ks[q - 1] == x);
            } else {
                assert(ks[q] == x);
            }
        }
    }
    assert(t.to_set() =~= ks.to_set());
    assert forall|a: int, b: int| 0 <= a < t.len() && 0 <= b < t.len() && a != b implies t[a]
        != t[b] by {
        if a == 0 && b > 0 {
            let y = if b - 1 < p { b - 1 } else { b };
            assert(ks[y] == t[b]);
            lemma_sorted_no_duplicates(ks);
        } else if b == 0 && a > 0 {
            let y = if a - 1 < p { a - 1 } else { a };
            assert(ks[y] == t[a]);
            lemma_sorted_no_duplicates(ks);
        } else if a > 0 && b > 0 {
            assert(t[a] == ks.remove(p)[a - 1]);
            assert(t[b] == ks.remove(p)[b - 1]);
        }
    }
}

/// The locales that have a catalog: in sorted order, except that `en-US`, when present, comes
/// first.
pub fn available_locales(catalogs: &CatalogMap) -> (r: Vec<String>)
    ensures
        texts(r@).to_set() == catalogs@.dom(),
        texts(r@).no_duplicates(),
        catalogs@.contains_key(fallback_locale()) ==> texts(r@)[0] == fallback_locale()
            && strictly_sorted(texts(r@).drop_first()),
        !catalogs@.contains_key(fallback_locale()) ==> strictly_sorted(texts(r@)),
{
    proof {
        use_type_invariant(catalogs);
    }
    let ghost ks = catalogs.keys();
    let mut out: Vec<String> = Vec::new();
    let mut fallback_at: Option<usize> = None;
    let mut i: usize = 0;
    while i < catalogs.entries.len()
        invariant
            ks == catalogs.keys(),
            strictly_sorted(ks),
            0 <= i <= catalogs.entries.len(),
            texts(out@) == ks.take(i as int),
            out@.len() == i,
            match fallback_at {
                Some(p) => p < i && ks[p as int] == fallback_locale(),
                None => forall|j: int| 0 <= j < i ==> ks[j] != fallback_locale(),
            },
        decreases catalogs.entries.len() - i,
    {
        assert(ks[i as int] == catalogs.entries@[i as int].0@);
        if is_fallback_locale(catalogs.entries[i].0.as_str()) {
            fallback_at = Some(i);
        }
        let key = catalogs.entries[i].0.clone();
        assert(key@ == ks[i as int]);
        out.push(key);
        i = i + 1;
        assert(texts(out@) =~= ks.take(i as int)) by {
            assert(texts(out@)[i - 1] == out@[i - 1]@);
        }
    }
    assert(ks.take(i as int) =~= ks);
    assert(ks.to_set() =~= catalogs@.dom());
    proof {
        lemma_sorted_no_duplicates(ks);
    }
    match fallback_at {
        Some(p) => {
            let first = out.remove(p);
            out.insert(0, first);
            let ghost t = texts(out@);
            assert(t =~= seq![fallback_locale()] + ks.remove(p as int));
            proof {
                lemma_move_to_front(ks, p as int);
            }
        },
        None => {
            proof {
                assert(!ks.contains(fallback_locale()));
            }
        },
    }
    out
}

/// Whether a catalog source holds anything but white space; a blank source adds nothing to a
/// message bundle.
pub open spec fn nonblank(src: Seq<char>) -> bool {
    trim(src).len() > 0
}

/// The catalog sources a message bundle for `locale` is made of, in the order they are added:
/// the locale's own catalog (unless the locale is `en-US`), then the `en-US` catalog, each only
/// when present and not blank. A message missing from the first is taken from the second.
pub open spec fn bundle_sources_of(catalogs: Map<Seq<char>, Seq<char>>, locale: Seq<char>) -> Seq<
    Seq<char>,
> {
    let own = if locale != fallback_locale() && catalogs.contains_key(locale) && nonblank(
        catalogs[locale],
    ) {
        seq![catalogs[locale]]
    } else {
        seq![]
    };
    let fallback = if catalogs.contains_key(fallback_locale()) && nonblank(
        catalogs[fallback_locale()],
    ) {
        seq![catalogs[fallback_locale()]]
    } else {
        seq![]
    };
    own + fallback
}

/// The catalog sources of the message bundle for `locale` (see `bundle_sources_of`).
pub fn bundle_sources(catalogs: &CatalogMap, locale: &str) -> (r: Vec<String>)
    ensures
        texts(r@) == bundle_sources_of(catalogs@, locale@),
{
    let mut out: Vec<String> = Vec::new();
    if !is_fallback_locale(locale) {
        if let Some(src) = catalog_source(catalogs, locale) {
            let t = crate::text::trimmed(src.as_str());
            if !t.as_str().is_empty() {
                out.push(src);
            }
        }
    }
    let fallback = "en-US";
    proof {
        reveal_strlit("en-US");
        assert(fallback@ =~= fallback_locale());
    }
    if let Some(src) = catalog_source(catalogs, fallback) {
        let t = crate::text::trimmed(src.as_str());
        if !t.as_str().is_empty() {
            out.push(src);
        }
    }
    assert(texts(out@) =~= bundle_sources_of(catalogs@, locale@));
    out
}

// ---------------------------------------------------------------------------
// Resolving the active locale
// ---------------------------------------------------------------------------

/// The identifiers parsed from `tags`, in order, skipping those that do not parse.
pub open spec fn parsed_ids(tags: Seq<Seq<char>>) -> Seq<(Seq<char>, Seq<char>)>
    decreases tags.len(),
{
    if tags.len() == 0 {
        seq![]
    } else {
        let earlier = parsed_ids(tags.drop_last());
        match language_identifier(tags.last()) {
            Some(id) => earlier.push(id),
            None => earlier,
        }
    }
}

/// The identifiers of the locales that have a catalog, in the order of their tags.
fn available_locale_ids(catalogs: &CatalogMap) -> (r: Vec<LangId>)
    ensures
        id_views(r@) == parsed_ids(catalogs.keys()),
{
    let ghost ks = catalogs.keys();
    let mut out: Vec<LangId> = Vec::new();
    let mut i: usize = 0;
    while i < catalogs.entries.len()
        invariant
            ks == catalogs.keys(),
            0 <= i <= catalogs.entries.len(),
            id_views(out@) == parsed_ids(ks.take(i as int)),
        decreases catalogs.entries.len() - i,
    {
        assert(ks[i as int] == catalogs.entries@[i as int].0@);
        assert(ks.take(i + 1).drop_last() =~= ks.take(i as int));
        match parse_language_identifier(catalogs.entries[i].0.as_str()) {
            Some(id) => {
                out.push(id);
                assert(id_views(out@) =~= parsed_ids(ks.take(i as int)).push(id@));
            },
            None => {},
        }
        i = i + 1;
    }
    assert(ks.take(i as int) =~= ks);
    out
}

/// The text of an optional string slice.
pub open spec fn opt_str(o: Option<&str>) -> Option<Seq<char>> {
    match o {
        Some(s) => Some(s@),
        None => None,
    }
}

/// The available identifier that one source of a locale tag selects, after cleaning the tag.
pub open spec fn source_match(raw: Option<Seq<char>>, ids: Seq<(Seq<char>, Seq<char>)>) -> Option<
    (Seq<char>, Seq<char>),
> {
    match raw {
        Some(text) => match cleaned_tag(text) {
            Some(tag) => matched_locale(tag, ids),
            None => None,
        },
        None => None,
    }
}

/// The identifier of `en-US`.
pub open spec fn fallback_id() -> (Seq<char>, Seq<char>) {
    (fallback_locale(), seq!['e', 'n'])
}

/// The active locale: the first of the requested tag, the `CODE_SCANNER_LANG` value and the
/// operating system's locale that selects an available identifier; `en-US` if none does.
pub open spec fn resolved_locale(
    requested: Option<Seq<char>>,
    env_lang: Option<Seq<char>>,
    os_locale: Option<Seq<char>>,
    ids: Seq<(Seq<char>, Seq<char>)>,
) -> (Seq<char>, Seq<char>) {
    match source_match(requested, ids) {
        Some(id) => id,
        None => match source_match(env_lang, ids) {
            Some(id) => id,
            None => match source_match(os_locale, ids) {
                Some(id) => id,
                None => fallback_id(),
            },
        },
    }
}

fn match_source(raw: Option<&str>, available: &Vec<LangId>) -> (r: Option<LangId>)
    ensures
        match r {
            Some(id) => source_match(opt_str(raw), id_views(available@)) == Some(id@),
            None => source_match(opt_str(raw), id_views(available@)) is None,
        },
{
    match raw {
        Some(text) => match clean_tag(text) {
            Some(tag) => match_available(tag.as_str(), available),
            None => None,
        },
        None => None,
    }
}

/// The identifier of `en-US`.
fn fallback_lang_id() -> (r: LangId)
    ensures
        r@ == fallback_id(),
{
    let tag = "en-US".to_owned();
    let language = "en".to_owned();
    proof {
        reveal_strlit("en-US");
        reveal_strlit("en");
        assert(tag@ =~= fallback_locale());
        assert(language@ =~= seq!['e', 'n']);
    }
    LangId { tag, language }
}

/// Resolves the active locale from the `--lang` value, the `CODE_SCANNER_LANG` value and the
/// operating system's locale, in that order, among the locales that have a catalog.
pub fn resolve_locale(
    requested: Option<&str>,
    env_lang: Option<&str>,
    os_locale: Option<&str>,
    catalogs: &CatalogMap,
) -> (r: LangId)
    ensures
        r@ == resolved_locale(
            opt_str(requested),
            opt_str(env_lang),
            opt_str(os_locale),
            parsed_ids(catalogs.keys()),
        ),
{
    let available = available_locale_ids(catalogs);
    if let Some(id) = match_source(requested, &available) {
        return id;
    }
    if let Some(id) = match_source(env_lang, &available) {
        return id;
    }
    if let Some(id) = match_source(os_locale, &available) {
        return id;
    }
    fallback_lang_id()
}

/// The tag of the locale to make active (see `resolve_locale`).
pub fn init(
    requested: Option<&str>,
    env_lang: Option<&str>,
    os_locale: Option<&str>,
    catalogs: &CatalogMap,
) -> (r: String)
    ensures
        r@ == resolved_locale(
            opt_str(requested),
            opt_str(env_lang),
            opt_str(os_locale),
            parsed_ids(catalogs.keys()),
        ).0,
{
    resolve_locale(requested, env_lang, os_locale, catalogs).tag
}

/// The tag of the locale to make active, the request being the `--lang` value found on the
/// command line `argv`.
pub fn init_from_cli(
    argv: &Vec<String>,
    env_lang: Option<&str>,
    os_locale: Option<&str>,
    catalogs: &CatalogMap,
) -> (r: String)
    ensures
        r@ == resolved_locale(
            lang_from_args(program_args(texts(argv@))),
            opt_str(env_lang),
            opt_str(os_locale),
            parsed_ids(catalogs.keys()),
        ).0,
{
    let requested = peek_argv_lang(argv);
    match requested {
        Some(tag) => init(Some(tag.as_str()), env_lang, os_locale, catalogs),
        None => init(None, env_lang, os_locale, catalogs),
    }
}

// ---------------------------------------------------------------------------
// Numbers in the active locale
// ---------------------------------------------------------------------------

/// The languages that write a decimal point (`.`) rather than a decimal comma.
pub open spec fn uses_decimal_point(lang: Seq<char>) -> bool {
    ||| lang == seq!['e', 'n']
    ||| lang == seq!['j', 'a']
    ||| lang == seq!['k', 'o']
    ||| lang == seq!['z', 'h']
    ||| lang == seq!['t', 'h']
    ||| lang == seq!['h', 'e']
    ||| lang == seq!['i', 'd']
    ||| lang == seq!['m', 's']
    ||| lang == seq!['f', 'i', 'l']
    ||| lang == seq!['h', 'i']
    ||| lang == seq!['t', 'a']
    ||| lang == seq!['t', 'e']
    ||| lang == seq!['m', 'r']
    ||| lang == seq!['k', 'n']
    ||| lang == seq!['g', 'u']
    ||| lang == seq!['p', 'a']
    ||| lang == seq!['m', 'l']
    ||| lang == seq!['b', 'n']
    ||| lang == seq!['s', 'w']
    ||| lang == seq!['a', 'm']
    ||| lang == seq!['m', 'y']
    ||| lang == seq!['l', 'o']
    ||| lang == seq!['k', 'm']
}

/// English, Japanese, Korean, Chinese, Thai, Hebrew, Indonesian, Malay, Filipino, Hindi,
/// Tamil, Telugu, Marathi, Kannada, Gujarati, Punjabi, Malayalam, Bengali, Swahili, Amharic,
/// Burmese, Lao and Khmer write a decimal point and group thousands with a comma; every other
/// language writes a decimal comma and groups with a point. The two marks always differ.
pub proof fn law_decimal_marks(lang: Seq<char>)
    ensures
        ({
            lang == seq!['e', 'n']
            || lang == seq!['j', 'a']
            || lang == seq!['k', 'o']
            || lang == seq!['z', 'h']
            || lang == seq!['t', 'h']
            || lang == seq!['h', 'e']
            || lang == seq!['i', 'd']
            || lang == seq!['m', 's']
            || lang == seq!['f', 'i', 'l']
            || lang == seq!['h', 'i']
            || lang == seq!['t', 'a']
            || lang == seq!['t', 'e']
            || lang == seq!['m', 'r']
            || lang == seq!['k', 'n']
            || lang == seq!['g', 'u']
            || lang == seq!['p', 'a']
            || lang == seq!['m', 'l']
            || lang == seq!['b', 'n']
            || lang == seq!['s', 'w']
            || lang == seq!['a', 'm']
            || lang == seq!['m', 'y']
            || lang == seq!['l', 'o']
            || lang == seq!['k', 'm']
        }) ==> decimal_separator_for(lang) == '.' && thousands_separator_for(lang) == ',',
        decimal_separator_for(lang) == '.' || decimal_separator_for(lang) == ',',
        decimal_separator_for(lang) != thousands_separator_for(lang),
        lang.len() != 2 && lang.len() != 3 ==> decimal_separator_for(lang) == ',',
{
}

/// The decimal separator of a language.
pub open spec fn decimal_separator_for(lang: Seq<char>) -> char {
    if uses_decimal_point(lang) {
        '.'
    } else {
        ','
    }
}

/// The language of a locale tag; `en` when the tag does not parse.
pub open spec fn locale_language(locale: Seq<char>) -> Seq<char> {
    match language_identifier(locale) {
        Some(id) => id.1,
        None => seq!['e', 'n'],
    }
}

fn language_uses_decimal_point(lang: &str) -> (r: bool)
    ensures
        r == uses_decimal_point(lang@),
{
    let cs = chars_of(lang);
    if cs.len() == 3 {
        assert(cs@ =~= seq![cs@[0], cs@[1], cs@[2]]);
        return cs[0] == 'f' && cs[1] == 'i' && cs[2] == 'l';
    }
    if cs.len() != 2 {
        return false;
    }
    assert(cs@ =~= seq![cs@[0], cs@[1]]);
    let a = cs[0];
    let b = cs[1];
    (a == 'e' && b == 'n') || (a == 'j' && b == 'a') || (a == 'k' && b == 'o') || (a == 'z' && b == 'h') || (a == 't' && b == 'h') || (a == 'h' && b == 'e') || (a == 'i' && b == 'd') || (a == 'm' && b == 's') || (a == 'h' && b == 'i') || (a == 't' && b == 'a') || (a == 't' && b == 'e') || (a == 'm' && b == 'r') || (a == 'k' && b == 'n') || (a == 'g' && b == 'u') || (a == 'p' && b == 'a') || (a == 'm' && b == 'l') || (a == 'b' && b == 'n') || (a == 's' && b == 'w') || (a == 'a' && b == 'm') || (a == 'm' && b == 'y') || (a == 'l' && b == 'o') || (a == 'k' && b == 'm')
}

/// The decimal separator of the locale `locale`.
pub fn locale_decimal_separator(locale: &str) -> (c: char)
    ensures
        c == decimal_separator_for(locale_language(locale@)),
{
    let point = match parse_language_identifier(locale) {
        Some(id) => language_uses_decimal_point(id.language.as_str()),
        None => true,
    };
    proof {
        assert(uses_decimal_point(seq!['e', 'n']));
    }
    if point {
        '.'
    } else {
        ','
    }
}

/// The thousands separator of a language: the one of the two marks not used for decimals.
pub open spec fn thousands_separator_for(lang: Seq<char>) -> char {
    if decimal_separator_for(lang) == ',' {
        '.'
    } else {
        ','
    }
}

/// The thousands separator of the locale `locale`.
pub fn locale_thousands_separator(locale: &str) -> (c: char)
    ensures
        c == thousands_separator_for(locale_language(locale@)),
{
    if locale_decimal_separator(locale) == ',' {
        '.'
    } else {
        ','
    }
}

/// Digits with `sep` between groups of three, counted from the right.
pub open spec fn group_digits(d: Seq<char>, sep: char) -> Seq<char>
    decreases d.len(),
{
    if d.len() <= 3 {
        d
    } else {
        group_digits(d.take(d.len() - 3), sep).push(sep) + d.skip(d.len() - 3)
    }
}

/// The magnitude of `v`.
pub open spec fn magnitude(v: i64) -> nat {
    if v < 0 {
        (-v) as nat
    } else {
        v as nat
    }
}

/// An integer written with grouped digits and a leading `-` when negative.
pub open spec fn localized_integer(v: i64, sep: char) -> Seq<char> {
    (if v < 0 {
        seq!['-']
    } else {
        seq![]
    }) + group_digits(decimal(magnitude(v)), sep)
}

fn push_grouped(out: &mut Vec<char>, d: &Vec<char>, end: usize, sep: char)
    requires
        end <= d.len(),
    ensures
        final(out)@ == old(out)@ + group_digits(d@.take(end as int), sep),
    decreases end,
{
    if end <= 3 {
        let mut i: usize = 0;
        while i < end
            invariant
                0 <= i <= end <= d.len(),
                out@ == old(out)@ + d@.take(i as int),
            decreases end - i,
        {
            out.push(d[i]);
            i = i + 1;
            assert(d@.take(i as int) =~= d@.take(i - 1).push(d@[i - 1]));
        }
        assert(d@.take(end as int).take(end as int) =~= d@.take(end as int));
    } else {
        push_grouped(out, d, end - 3, sep);
        out.push(sep);
        out.push(d[end - 3]);
        out.push(d[end - 2]);
        out.push(d[end - 1]);
        let ghost t = d@.take(end as int);
        assert(t.take(t.len() - 3) =~= d@.take(end - 3));
        assert(t.skip(t.len() - 3) =~= seq![d@[end - 3], d@[end - 2], d@[end - 1]]);
        assert(out@ =~= old(out)@ + group_digits(t, sep));
    }
}

/// `value` with its digits grouped by threes with the thousands separator of `locale`.
pub fn localize_int(locale: &str, value: i64) -> (r: String)
    ensures
        r@ == localized_integer(value, thousands_separator_for(locale_language(locale@))),
{
    let sep = locale_thousands_separator(locale);
    let abs: u64 = if value < 0 {
        ((-(value + 1)) as u64) + 1
    } else {
        value as u64
    };
    let mut digits: Vec<char> = Vec::new();
    crate::text::push_decimal(&mut digits, abs);
    assert(digits@ =~= decimal(magnitude(value)));
    let mut out: Vec<char> = Vec::new();
    if value < 0 {
        out.push('-');
    }
    push_grouped(&mut out, &digits, digits.len(), sep);
    assert(digits@.take(digits@.len() as int) =~= digits@);
    assert(out@ =~= localized_integer(value, sep));
    crate::text::string_from_chars(&out)
}

/// A count in the active locale's notation (e.g. `1,234` in `en-US`, `1.234` in `pt-BR`).
pub fn format_number(locale: &str, value: i64) -> (r: String)
    ensures
        r@ == localized_integer(value, thousands_separator_for(locale_language(locale@))),
{
    localize_int(locale, value)
}

/// `s` without every trailing `c` (`str::trim_end_matches` with one character).
pub open spec fn trim_end_char(s: Seq<char>, c: char) -> Seq<char>
    decreases s.len(),
{
    if s.len() > 0 && s.last() == c {
        trim_end_char(s.drop_last(), c)
    } else {
        s
    }
}

/// A decimal number written with a point, made local: trailing zeros of the fraction and then a
/// trailing point dropped when there is a point, and the point replaced by `decimal`.
pub open spec fn localized_decimal_text(text: Seq<char>, mark: char) -> Seq<char> {
    let t = if text.contains('.') {
        trim_end_char(trim_end_char(text, '0'), '.')
    } else {
        text
    };
    if mark != '.' {
        replace_char(t, '.', mark)
    } else {
        t
    }
}

fn trim_end_index(cs: &Vec<char>, end: usize, c: char) -> (r: usize)
    requires
        end <= cs.len(),
    ensures
        r <= end,
        cs@.take(r as int) == trim_end_char(cs@.take(end as int), c),
{
    let mut e = end;
    while e > 0 && cs[e - 1] == c
        invariant
            e <= end <= cs.len(),
            trim_end_char(cs@.take(end as int), c) == trim_end_char(cs@.take(e as int), c),
        decreases e,
    {
        assert(cs@.take(e as int).drop_last() =~= cs@.take(e - 1));
        e = e - 1;
    }
    e
}

/// The text of a number formatted with two decimal places (e.g. `1.50`), in the notation of
/// `locale` (e.g. `1.5`, or `1,5` where the decimal separator is a comma).
pub fn localize_decimal(locale: &str, text: &str) -> (r: String)
    ensures
        r@ == localized_decimal_text(text@, decimal_separator_for(locale_language(locale@))),
{
    let cs = chars_of(text);
    let mut has_point = false;
    let mut i: usize = 0;
    while i < cs.len()
        invariant
            0 <= i <= cs.len(),
            cs@ == text@,
            has_point == exists|j: int| 0 <= j < i && cs@[j] == '.',
        decreases cs.len() - i,
    {
        if cs[i] == '.' {
            has_point = true;
        }
        i = i + 1;
    }
    let mut end = cs.len();
    assert(cs@.take(end as int) =~= text@);
    if has_point {
        let e1 = trim_end_index(&cs, end, '0');
        end = trim_end_index(&cs, e1, '.');
    }
    let mark = locale_decimal_separator(locale);
    let r = crate::text::replaced_range(&cs, 0, end, '.', mark);
    proof {
        assert(cs@.subrange(0, end as int) =~= cs@.take(end as int));
        if mark == '.' {
            assert(replace_char(cs@.take(end as int), '.', '.') =~= cs@.take(end as int));
        }
    }
    r
}

/// The unit of a size after `unit` divisions by 1000.
pub open spec fn size_unit(unit: int) -> Seq<char> {
    if unit == 0 {
        "B"@
    } else if unit == 1 {
        "kB"@
    } else if unit == 2 {
        "MB"@
    } else if unit == 3 {
        "GB"@
    } else {
        "TB"@
    }
}

fn size_unit_name(unit: usize) -> (r: &'static str)
    ensures
        r@ == size_unit(unit as int),
{
    if unit == 0 {
        "B"
    } else if unit == 1 {
        "kB"
    } else if unit == 2 {
        "MB"
    } else if unit == 3 {
        "GB"
    } else {
        "TB"
    }
}

/// How many times a size is divided by 1000 before it is written: while it is at least 1000,
/// up to terabytes.
pub open spec fn size_unit_of(bytes: u64) -> int {
    if bytes < 1000 {
        0
    } else if bytes < 1_000_000 {
        1
    } else if bytes < 1_000_000_000 {
        2
    } else if bytes < 1_000_000_000_000 {
        3
    } else {
        4
    }
}

/// How many times a size is divided by 1000 before it is written (see `size_unit_of`).
pub fn size_unit_for(bytes: u64) -> (r: usize)
    ensures
        r == size_unit_of(bytes),
        size_unit(r as int) == if bytes < 1000 {
            "B"@
        } else if bytes < 1_000_000 {
            "kB"@
        } else if bytes < 1_000_000_000 {
            "MB"@
        } else if bytes < 1_000_000_000_000 {
            "GB"@
        } else {
            "TB"@
        },
{
    if bytes < 1000 {
        0
    } else if bytes < 1_000_000 {
        1
    } else if bytes < 1_000_000_000 {
        2
    } else if bytes < 1_000_000_000_000 {
        3
    } else {
        4
    }
}

/// A file size in the notation of `locale`: below 1000 bytes the count of bytes and `B`;
/// otherwise `amount`, the size in the unit reached after `unit` divisions by 1000 written with
/// two decimal places, made local, then that unit.
pub open spec fn localized_size_text(locale: Seq<char>, bytes: u64, amount: Seq<char>, unit: int) -> Seq<
    char,
> {
    if bytes < 1000 {
        localized_integer(bytes as i64, thousands_separator_for(locale_language(locale))) + " B"@
    } else {
        localized_decimal_text(amount, decimal_separator_for(locale_language(locale))) + seq![' ']
            + size_unit(unit)
    }
}

/// A file size in the notation of `locale` (e.g. `999 B`, `1.5 kB`, `1,5 kB` in `pt-BR`); see
/// `localized_size_text`. Only sizes of 1000 bytes or more read `amount` and `unit`.
pub fn localized_size(locale: &str, bytes: u64, amount: &str, unit: usize) -> (r: String)
    requires
        bytes >= 1000 ==> 1 <= unit <= 4,
    ensures
        r@ == localized_size_text(locale@, bytes, amount@, unit as int),
{
    if bytes < 1000 {
        let mut out = localize_int(locale, bytes as i64);
        push_all(&mut out, " B");
        out
    } else {
        let mut out = localize_decimal(locale, amount);
        push_char(&mut out, ' ');
        push_all(&mut out, size_unit_name(unit));
        out
    }
}

/// Whether `chrono::Locale::try_from` knows the locale name `name`; the answer is a lookup in
/// a fixed table of POSIX locale names (such as `pt_BR`).
pub uninterp spec fn chrono_knows_locale(name: Seq<char>) -> bool;

/// Calls `chrono::Locale::try_from(name)` and tells whether it succeeded; named by
/// `chrono_knows_locale`.
#[verifier::external_body]
fn chrono_locale_known(name: &str) -> (r: bool)
    ensures
        r == chrono_knows_locale(name@),
{
    chrono::Locale::try_from(name).is_ok()
}

/// The locale name under which timestamps are written for `locale`: the tag with `-` written as
/// `_` when chrono knows it, else its first subtag when chrono knows that; none otherwise (the
/// timestamp then takes the fixed `%Y-%m-%d %H:%M:%S` form).
pub open spec fn timestamp_locale_of(locale: Seq<char>) -> Option<Seq<char>> {
    let tag = replace_char(locale, '-', '_');
    let first = primary_subtag(tag);
    if chrono_knows_locale(tag) {
        Some(tag)
    } else if chrono_knows_locale(first) {
        Some(first)
    } else {
        None
    }
}

/// The first subtag of a locale tag (see `primary_subtag`).
fn first_subtag(cs: &Vec<char>) -> (r: String)
    ensures
        r@ == primary_subtag(cs@),
{
    let mut i: usize = 0;
    while i < cs.len() && cs[i] != '-' && cs[i] != '_'
        invariant
            0 <= i <= cs.len(),
            prefix_len(cs@, subtag_separator()) == i + prefix_len(
                cs@.subrange(i as int, cs@.len() as int),
                subtag_separator(),
            ),
        decreases cs.len() - i,
    {
        proof {
            lemma_prefix_len_step(cs@, i as int, cs@.len() as int, subtag_separator());
        }
        i = i + 1;
    }
    proof {
        assert(cs@ =~= cs@.subrange(0, cs@.len() as int));
        if i < cs.len() {
            lemma_prefix_len_step(cs@, i as int, cs@.len() as int, subtag_separator());
        }
    }
    assert(cs@.subrange(0, i as int) =~= cs@.take(i as int));
    string_from_range(cs, 0, i)
}

/// The locale name under which timestamps are written for `locale` (see
/// `timestamp_locale_of`).
pub fn timestamp_locale(locale: &str) -> (r: Option<String>)
    ensures
        opt_text(r) == timestamp_locale_of(locale@),
{
    let cs = chars_of(locale);
    let tag = replaced_range(&cs, 0, cs.len(), '-', '_');
    assert(cs@.subrange(0, cs@.len() as int) =~= locale@);
    if chrono_locale_known(tag.as_str()) {
        return Some(tag);
    }
    let tcs = chars_of(tag.as_str());
    let first = first_subtag(&tcs);
    if chrono_locale_known(first.as_str()) {
        Some(first)
    } else {
        None
    }
}

// ---------------------------------------------------------------------------
// Message identifiers of a catalog
// ---------------------------------------------------------------------------

/// The `=` that ends a message identifier.
pub open spec fn equals_stop() -> spec_fn(char) -> bool {
    |c: char| c == '='
}

/// The characters a message identifier is made of: ASCII letters and digits, `-` and `_`.
pub open spec fn is_id_char(c: char) -> bool {
    ||| 'a' <= c <= 'z'
    ||| 'A' <= c <= 'Z'
    ||| '0' <= c <= '9'
    ||| c == '-'
    ||| c == '_'
}

/// The message a catalog line defines: the identifier before the first `=` of the trimmed
/// line, trimmed. Nothing for an indented line (continuation), a blank line, a comment (`#`),
/// an attribute (`.`), a line without `=`, a term (identifier starting with `-`), or an
/// identifier that is empty or holds other characters.
pub open spec fn message_id(line: Seq<char>) -> Option<Seq<char>> {
    if line.len() > 0 && (line[0] == ' ' || line[0] == '\t') {
        None
    } else {
        let t = trim(line);
        if t.len() == 0 || t[0] == '#' || t[0] == '.' {
            None
        } else {
            let k = prefix_len(t, equals_stop()) as int;
            if k >= t.len() {
                None
            } else {
                let id = trim(t.take(k));
                if id.len() > 0 && id[0] == '-' {
                    None
                } else if id.len() > 0 && forall|i: int| 0 <= i < id.len() ==> is_id_char(
                    #[trigger] id[i],
                ) {
                    Some(id)
                } else {
                    None
                }
            }
        }
    }
}

/// The identifiers of the messages that `ls` define.
pub open spec fn message_ids_of(ls: Seq<Seq<char>>) -> Set<Seq<char>>
    decreases ls.len(),
{
    if ls.len() == 0 {
        Set::empty()
    } else {
        let rest = message_ids_of(ls.drop_first());
        match message_id(ls[0]) {
            Some(id) => rest.insert(id),
            None => rest,
        }
    }
}

fn is_id_char_exec(c: char) -> (r: bool)
    ensures
        r == is_id_char(c),
{
    ('a' <= c && c <= 'z') || ('A' <= c && c <= 'Z') || ('0' <= c && c <= '9') || c == '-' || c
        == '_'
}

/// Whether `cs[c..d]` holds identifier characters only.
fn all_id_chars(cs: &Vec<char>, c: usize, d: usize) -> (r: bool)
    requires
        c <= d <= cs.len(),
    ensures
        r == forall|j: int| c <= j < d ==> is_id_char(#[trigger] cs@[j]),
{
    let mut i = c;
    while i < d
        invariant
            c <= i <= d <= cs.len(),
            forall|j: int| c <= j < i ==> is_id_char(#[trigger] cs@[j]),
        decreases d - i,
    {
        if !is_id_char_exec(cs[i]) {
            return false;
        }
        i = i + 1;
    }
    true
}

/// The message identifier that the line `chars[lo..hi]` defines.
fn line_message_id(cs: &Vec<char>, lo: usize, hi: usize) -> (r: Option<String>)
    requires
        lo <= hi <= cs.len(),
    ensures
        opt_text(r) == message_id(cs@.subrange(lo as int, hi as int)),
{
    let ghost line = cs@.subrange(lo as int, hi as int);
    if hi > lo && (cs[lo] == ' ' || cs[lo] == '\t') {
        return None;
    }
    let (a, b) = trim_range(cs, lo, hi);
    let ghost t = cs@.subrange(a as int, b as int);
    assert(t == trim(line));
    if a == b || cs[a] == '#' || cs[a] == '.' {
        return None;
    }
    let mut e = a;
    while e < b && cs[e] != '='
        invariant
            a <= e <= b <= cs.len(),
            prefix_len(t, equals_stop()) == (e - a) + prefix_len(
                cs@.subrange(e as int, b as int),
                equals_stop(),
            ),
        decreases b - e,
    {
        proof {
            lemma_prefix_len_step(cs@, e as int, b as int, equals_stop());
        }
        e = e + 1;
    }
    proof {
        if e < b {
            lemma_prefix_len_step(cs@, e as int, b as int, equals_stop());
        }
    }
    if e == b {
        return None;
    }
    assert(t.take(e - a) =~= cs@.subrange(a as int, e as int));
    let (c, d) = trim_range(cs, a, e);
    let ghost id = cs@.subrange(c as int, d as int);
    if d > c && cs[c] == '-' {
        return None;
    }
    if d == c {
        return None;
    }
    let ok = all_id_chars(cs, c, d);
    if !ok {
        let ghost j = choose|j: int| c <= j < d && !is_id_char(#[trigger] cs@[j]);
        assert(!is_id_char(id[j - c]));
        return None;
    }
    assert forall|j: int| 0 <= j < id.len() implies is_id_char(#[trigger] id[j]) by {
        assert(id[j] == cs@[c + j]);
    }
    Some(string_from_range(cs, c, d))
}

/// The identifiers of the messages that a catalog source defines, in sorted order.
pub fn message_ids(src: &str) -> (r: Vec<String>)
    ensures
        strictly_sorted(texts(r@)),
        texts(r@).to_set() == message_ids_of(lines(src@)),
{
    let cs = chars_of(src);
    let ghost sv = src@;
    let mut ids: Vec<String> = Vec::new();
    let mut start: usize = 0;
    assert(sv.skip(0) =~= sv);
    assert(texts(ids@).to_set() =~= Set::<Seq<char>>::empty());
    while start < cs.len()
        invariant
            cs@ == sv,
            sv == src@,
            start <= cs.len(),
            strictly_sorted(texts(ids@)),
            texts(ids@).to_set().union(message_ids_of(lines(sv.skip(start as int))))
                == message_ids_of(lines(sv)),
        decreases cs.len() - start,
    {
        let k = next_newline(&cs, start);
        proof {
            lemma_lines_step(sv, start as int, k as int);
        }
        let hi = if k < cs.len() && k > start && cs[k - 1] == '\r' {
            k - 1
        } else {
            k
        };
        let ghost piece = sv.subrange(start as int, k as int);
        let ghost next_start = if k < cs.len() { k + 1 } else { k as int };
        let ghost rest = lines(sv.skip(next_start));
        proof {
            if k < cs.len() {
                assert(strip_cr(piece) =~= sv.subrange(start as int, hi as int));
                assert(lines(sv.skip(start as int)) == seq![strip_cr(piece)] + rest);
                assert((seq![strip_cr(piece)] + rest).drop_first() =~= rest);
            } else {
                assert(sv.skip(k as int) =~= Seq::<char>::empty());
                assert(rest =~= Seq::<Seq<char>>::empty());
                assert(lines(sv.skip(start as int)) == seq![piece]);
                assert(seq![piece].drop_first() =~= rest);
            }
        }
        let ghost before = texts(ids@).to_set();
        match line_message_id(&cs, start, hi) {
            Some(id) => {
                let ghost idv = id@;
                insert_sorted_unique(&mut ids, id);
                assert(texts(ids@).to_set().union(message_ids_of(rest)) =~= before.union(
                    message_ids_of(rest).insert(idv),
                ));
            },
            None => {},
        }
        start = if k < cs.len() {
            k + 1
        } else {
            k
        };
    }
    assert(sv.skip(start as int) =~= Seq::<char>::empty());
    assert(texts(ids@).to_set().union(Set::<Seq<char>>::empty()) =~= texts(ids@).to_set());
    ids
}

} // verus!
