use vstd::prelude::*;
use vstd::utf8::*;

verus! {

broadcast use vstd::seq_lib::group_seq_properties;

// ---------------------------------------------------------------------------
// Characters and strings
// ---------------------------------------------------------------------------

/// The characters of `s`, in order.
pub fn chars_of(s: &str) -> (r: Vec<char>)
    ensures
        r@ == s@,
{
    let mut r: Vec<char> = Vec::new();
    for c in it: s.chars()
        invariant
            r@ == it.seq().take(it.index() as int),
    {
        r.push(c);
    }
    r
}

/// `String::push`: appends one character at the end of the string.
#[verifier::external_body]
pub(crate) fn push_char(s: &mut String, c: char)
    ensures
        final(s)@ == old(s)@.push(c),
{
    s.push(c);
}

/// A new string holding `chars[from..to]`.
pub fn string_from_range(chars: &Vec<char>, from: usize, to: usize) -> (r: String)
    requires
        from <= to <= chars.len(),
    ensures
        r@ == chars@.subrange(from as int, to as int),
{
    let mut r = String::new();
    let mut i = from;
    while i < to
        invariant
            from <= i <= to <= chars.len(),
            r@ == chars@.subrange(from as int, i as int),
        decreases to - i,
    {
        push_char(&mut r, chars[i]);
        i = i + 1;
    }
    r
}

/// A new string holding all of `chars`.
pub fn string_from_chars(chars: &Vec<char>) -> (r: String)
    ensures
        r@ == chars@,
{
    let r = string_from_range(chars, 0, chars.len());
    assert(chars@.subrange(0, chars@.len() as int) =~= chars@);
    r
}

/// Appends every character of `tail` to `s`.
pub fn push_all(s: &mut String, tail: &str)
    ensures
        final(s)@ == old(s)@ + tail@,
{
    let cs = chars_of(tail);
    let mut i: usize = 0;
    while i < cs.len()
        invariant
            0 <= i <= cs.len(),
            cs@ == tail@,
            s@ == old(s)@ + tail@.take(i as int),
        decreases cs.len() - i,
    {
        push_char(s, cs[i]);
        i = i + 1;
        assert(tail@.take(i as int) =~= tail@.take(i - 1).push(cs@[i - 1]));
    }
    assert(tail@.take(cs.len() as int) =~= tail@);
}

/// Two string slices hold the same characters exactly when their bytes agree.
pub fn str_eq(a: &str, b: &str) -> (r: bool)
    ensures
        r == (a@ == b@),
{
    broadcast use encode_utf8_decode_utf8;
    let x = a.as_bytes();
    let y = b.as_bytes();
    if x.len() != y.len() {
        return false;
    }
    let mut i: usize = 0;
    while i < x.len()
        invariant
            x.len() == y.len(),
            x@ == encode_utf8(a@),
            y@ == encode_utf8(b@),
            0 <= i <= x.len(),
            forall|j: int| 0 <= j < i ==> x@[j] == y@[j],
        decreases x.len() - i,
    {
        if x[i] != y[i] {
            return false;
        }
        i = i + 1;
    }
    assert(x@ =~= y@);
    assert(decode_utf8(encode_utf8(a@)) == a@);
    assert(decode_utf8(encode_utf8(b@)) == b@);
    true
}

/// Whether some string of `items` holds exactly the characters of `s`.
pub fn contains_str(items: &Vec<String>, s: &str) -> (r: bool)
    ensures
        r == exists|i: int| 0 <= i < items@.len() && #[trigger] items@[i]@ == s@,
{
    let mut i: usize = 0;
    while i < items.len()
        invariant
            0 <= i <= items.len(),
            forall|j: int| 0 <= j < i ==> #[trigger] items@[j]@ != s@,
        decreases items.len() - i,
    {
        if str_eq(items[i].as_str(), s) {
            return true;
        }
        i = i + 1;
    }
    false
}

// ---------------------------------------------------------------------------
// Ordering of strings (the order of `Ord for str`: lexicographic on UTF-8 bytes)
// ---------------------------------------------------------------------------

/// Lexicographic order on byte sequences; a proper prefix comes first.
pub open spec fn bytes_lt(a: Seq<u8>, b: Seq<u8>) -> bool
    decreases a.len(),
{
    if b.len() == 0 {
        false
    } else if a.len() == 0 {
        true
    } else if a[0] != b[0] {
        a[0] < b[0]
    } else {
        bytes_lt(a.drop_first(), b.drop_first())
    }
}

/// `a` sorts strictly before `b` as Rust orders `str` values.
pub open spec fn text_lt(a: Seq<char>, b: Seq<char>) -> bool {
    bytes_lt(encode_utf8(a), encode_utf8(b))
}

pub proof fn lemma_bytes_lt_irreflexive(a: Seq<u8>)
    ensures
        !bytes_lt(a, a),
    decreases a.len(),
{
    if a.len() > 0 {
        lemma_bytes_lt_irreflexive(a.drop_first());
    }
}

pub proof fn lemma_bytes_lt_transitive(a: Seq<u8>, b: Seq<u8>, c: Seq<u8>)
    requires
        bytes_lt(a, b),
        bytes_lt(b, c),
    ensures
        bytes_lt(a, c),
    decreases a.len(),
{
    if a.len() > 0 && b.len() > 0 && c.len() > 0 && a[0] == b[0] && b[0] == c[0] {
        lemma_bytes_lt_transitive(a.drop_first(), b.drop_first(), c.drop_first());
    }
}

pub proof fn lemma_bytes_lt_total(a: Seq<u8>, b: Seq<u8>)
    requires
        a != b,
    ensures
        bytes_lt(a, b) || bytes_lt(b, a),
    decreases a.len(),
{
    if a.len() > 0 && b.len() > 0 && a[0] == b[0] {
        if a.drop_first() == b.drop_first() {
            assert(a =~= seq![a[0]] + a.drop_first());
            assert(b =~= seq![b[0]] + b.drop_first());
        }
        lemma_bytes_lt_total(a.drop_first(), b.drop_first());
    } else if a.len() == 0 && b.len() == 0 {
        assert(a =~= b);
    }
}

pub proof fn lemma_bytes_lt_asymmetric(a: Seq<u8>, b: Seq<u8>)
    requires
        bytes_lt(a, b),
    ensures
        !bytes_lt(b, a),
{
    if bytes_lt(b, a) {
        lemma_bytes_lt_transitive(a, b, a);
        lemma_bytes_lt_irreflexive(a);
    }
}

pub proof fn lemma_text_lt_irreflexive(a: Seq<char>)
    ensures
        !text_lt(a, a),
{
    lemma_bytes_lt_irreflexive(encode_utf8(a));
}

pub proof fn lemma_text_lt_transitive(a: Seq<char>, b: Seq<char>, c: Seq<char>)
    requires
        text_lt(a, b),
        text_lt(b, c),
    ensures
        text_lt(a, c),
{
    lemma_bytes_lt_transitive(encode_utf8(a), encode_utf8(b), encode_utf8(c));
}

pub proof fn lemma_text_lt_total(a: Seq<char>, b: Seq<char>)
    requires
        a != b,
    ensures
        text_lt(a, b) || text_lt(b, a),
{
    broadcast use encode_utf8_decode_utf8;
    assert(decode_utf8(encode_utf8(a)) == a);
    assert(decode_utf8(encode_utf8(b)) == b);
    lemma_bytes_lt_total(encode_utf8(a), encode_utf8(b));
}

pub proof fn lemma_text_lt_asymmetric(a: Seq<char>, b: Seq<char>)
    requires
        text_lt(a, b),
    ensures
        !text_lt(b, a),
{
    lemma_bytes_lt_asymmetric(encode_utf8(a), encode_utf8(b));
}

proof fn lemma_bytes_lt_skip(a: Seq<u8>, b: Seq<u8>, i: int)
    requires
        0 <= i < a.len(),
        i < b.len(),
        a[i] == b[i],
    ensures
        bytes_lt(a.skip(i), b.skip(i)) == bytes_lt(a.skip(i + 1), b.skip(i + 1)),
{
    assert(a.skip(i).drop_first() =~= a.skip(i + 1));
    assert(b.skip(i).drop_first() =~= b.skip(i + 1));
}

/// Whether `a` sorts strictly before `b` (the order of `Ord for str`).
pub fn str_lt(a: &str, b: &str) -> (r: bool)
    ensures
        r == text_lt(a@, b@),
{
    let x = a.as_bytes();
    let y = b.as_bytes();
    let mut i: usize = 0;
    assert(x@.skip(0) =~= x@);
    assert(y@.skip(0) =~= y@);
    while i < x.len() && i < y.len()
        invariant
            x@ == encode_utf8(a@),
            y@ == encode_utf8(b@),
            0 <= i <= x.len(),
            i <= y.len(),
            bytes_lt(x@, y@) == bytes_lt(x@.skip(i as int), y@.skip(i as int)),
        decreases x.len() - i,
    {
        if x[i] != y[i] {
            return x[i] < y[i];
        }
        proof {
            lemma_bytes_lt_skip(x@, y@, i as int);
        }
        i = i + 1;
    }
    i < y.len()
}

/// The characters of each string of `v`.
pub open spec fn texts(v: Seq<String>) -> Seq<Seq<char>> {
    v.map_values(|s: String| s@)
}

/// Strictly increasing in the order of `Ord for str`: sorted, no repetition.
pub open spec fn strictly_sorted(s: Seq<Seq<char>>) -> bool {
    forall|i: int, j: int| 0 <= i < j < s.len() ==> text_lt(#[trigger] s[i], #[trigger] s[j])
}

/// Inserts `item` into the strictly sorted vector `v` unless an equal string is present.
pub fn insert_sorted_unique(v: &mut Vec<String>, item: String)
    requires
        strictly_sorted(texts(old(v)@)),
    ensures
        strictly_sorted(texts(final(v)@)),
        texts(final(v)@).to_set() == texts(old(v)@).to_set().insert(item@),
{
    let ghost old_t = texts(v@);
    let mut i: usize = 0;
    let mut stop = false;
    while i < v.len() && !stop
        invariant
            v@ == old(v)@,
            old_t == texts(v@),
            strictly_sorted(old_t),
            0 <= i <= v.len(),
            stop ==> i < v.len() && text_lt(item@, old_t[i as int]),
            forall|j: int| 0 <= j < i ==> text_lt(#[trigger] old_t[j], item@),
        decreases v.len() - i, (if stop { 0int } else { 1int }),
    {
        if str_eq(v[i].as_str(), item.as_str()) {
            assert(old_t.to_set().insert(item@) =~= old_t.to_set()) by {
                assert(old_t[i as int] == item@);
            }
            return;
        }
        if str_lt(item.as_str(), v[i].as_str()) {
            stop = true;
        } else {
            proof {
                lemma_text_lt_total(item@, old_t[i as int]);
            }
            i = i + 1;
        }
    }
    let ghost at = i as int;
    assert(forall|j: int| at <= j < old_t.len() ==> text_lt(item@, #[trigger] old_t[j])) by {
        if at < old_t.len() {
            assert forall|j: int| at <= j < old_t.len() implies text_lt(item@, #[trigger] old_t[j]) by {
                if j > at {
                    assert(text_lt(old_t[at], old_t[j]));
                    lemma_text_lt_transitive(item@, old_t[at], old_t[j]);
                }
            }
        }
    }
    v.insert(i, item);
    let ghost new_t = texts(v@);
    assert(new_t =~= old_t.take(at).push(item@) + old_t.skip(at));
    assert forall|a: int, b: int| 0 <= a < b < new_t.len() implies text_lt(#[trigger] new_t[a], #[trigger] new_t[b]) by {
        if b < at {
            assert(new_t[a] == old_t[a]);
            assert(new_t[b] == old_t[b]);
        } else if a < at && b == at {
            assert(new_t[a] == old_t[a]);
        } else if a < at && b > at {
            assert(new_t[a] == old_t[a]);
            assert(new_t[b] == old_t[b - 1]);
            lemma_text_lt_transitive(old_t[a], item@, old_t[b - 1]);
        } else if a == at {
            assert(new_t[b] == old_t[b - 1]);
        } else {
            assert(new_t[a] == old_t[a - 1]);
            assert(new_t[b] == old_t[b - 1]);
        }
    }
    assert(new_t.to_set() =~= old_t.to_set().insert(item@)) by {
        assert forall|x: Seq<char>| new_t.to_set().contains(x) <==> old_t.to_set().insert(item@).contains(x) by {
            if new_t.to_set().contains(x) {
                let k = choose|k: int| 0 <= k < new_t.len() && new_t[k] == x;
                if k < at {
                    assert(old_t[k] == x);
                } else if k > at {
                    assert(old_t[k - 1] == x);
                }
            }
            if old_t.to_set().contains(x) {
                let k = choose|k: int| 0 <= k < old_t.len() && old_t[k] == x;
                if k < at {
                    assert(new_t[k] == x);
                } else {
                    assert(new_t[k + 1] == x);
                }
            }
            if x == item@ {
                assert(new_t[at] == x);
            }
        }
    }
}

// ---------------------------------------------------------------------------
// White space and trimming (`str::trim` removes `char::is_whitespace` characters)
// ---------------------------------------------------------------------------

/// The characters with the Unicode `White_Space` property, which `char::is_whitespace` accepts.
pub open spec fn is_white_space(c: char) -> bool {
    let u = c as u32;
    ||| 0x09 <= u <= 0x0D
    ||| u == 0x20
    ||| u == 0x85
    ||| u == 0xA0
    ||| u == 0x1680
    ||| 0x2000 <= u <= 0x200A
    ||| u == 0x2028
    ||| u == 0x2029
    ||| u == 0x202F
    ||| u == 0x205F
    ||| u == 0x3000
}

pub fn white_space(c: char) -> (r: bool)
    ensures
        r == is_white_space(c),
{
    let u = c as u32;
    (0x09 <= u && u <= 0x0D) || u == 0x20 || u == 0x85 || u == 0xA0 || u == 0x1680 || (0x2000
        <= u && u <= 0x200A) || u == 0x2028 || u == 0x2029 || u == 0x202F || u == 0x205F || u
        == 0x3000
}

/// `s` without its leading white space.
pub open spec fn trim_front(s: Seq<char>) -> Seq<char>
    decreases s.len(),
{
    if s.len() > 0 && is_white_space(s[0]) {
        trim_front(s.drop_first())
    } else {
        s
    }
}

/// `s` without its trailing white space.
pub open spec fn trim_back(s: Seq<char>) -> Seq<char>
    decreases s.len(),
{
    if s.len() > 0 && is_white_space(s.last()) {
        trim_back(s.drop_last())
    } else {
        s
    }
}

/// `str::trim`: `s` without leading and trailing white space.
pub open spec fn trim(s: Seq<char>) -> Seq<char> {
    trim_back(trim_front(s))
}

/// The bounds of `chars[from..to]` once trimmed.
pub fn trim_range(chars: &Vec<char>, from: usize, to: usize) -> (r: (usize, usize))
    requires
        from <= to <= chars.len(),
    ensures
        from <= r.0 <= r.1 <= to,
        chars@.subrange(r.0 as int, r.1 as int) == trim(chars@.subrange(from as int, to as int)),
{
    let mut lo = from;
    while lo < to && white_space(chars[lo])
        invariant
            from <= lo <= to <= chars.len(),
            trim_front(chars@.subrange(from as int, to as int)) == trim_front(
                chars@.subrange(lo as int, to as int),
            ),
        decreases to - lo,
    {
        assert(chars@.subrange(lo as int, to as int).drop_first() =~= chars@.subrange(
            lo + 1,
            to as int,
        ));
        lo = lo + 1;
    }
    let mut hi = to;
    while hi > lo && white_space(chars[hi - 1])
        invariant
            from <= lo <= hi <= to <= chars.len(),
            trim_back(chars@.subrange(lo as int, to as int)) == trim_back(
                chars@.subrange(lo as int, hi as int),
            ),
        decreases hi - lo,
    {
        assert(chars@.subrange(lo as int, hi as int).drop_last() =~= chars@.subrange(
            lo as int,
            hi - 1,
        ));
        hi = hi - 1;
    }
    (lo, hi)
}

/// `str::trim` on a string slice, as a new string.
pub fn trimmed(s: &str) -> (r: String)
    ensures
        r@ == trim(s@),
{
    let cs = chars_of(s);
    let (lo, hi) = trim_range(&cs, 0, cs.len());
    assert(cs@.subrange(0, cs@.len() as int) =~= cs@);
    string_from_range(&cs, lo, hi)
}

// ---------------------------------------------------------------------------
// ASCII case
// ---------------------------------------------------------------------------

/// `char::to_ascii_lowercase`.
pub open spec fn ascii_lower(c: char) -> char {
    if 'A' <= c <= 'Z' {
        ((c as u32) + 32) as char
    } else {
        c
    }
}

pub fn ascii_lower_char(c: char) -> (r: char)
    ensures
        r == ascii_lower(c),
{
    if 'A' <= c && c <= 'Z' {
        let u = c as u32;
        let b: u8 = (u as u8) + 32;
        b as char
    } else {
        c
    }
}

/// `str::to_ascii_lowercase` on a sequence of characters.
pub open spec fn ascii_lowercase(s: Seq<char>) -> Seq<char> {
    s.map_values(|c: char| ascii_lower(c))
}

// ---------------------------------------------------------------------------
// Decimal digits
// ---------------------------------------------------------------------------

/// The digit character of `d < 10`.
pub open spec fn digit_char(d: nat) -> char {
    if d == 0 { '0' }
    else if d == 1 { '1' }
    else if d == 2 { '2' }
    else if d == 3 { '3' }
    else if d == 4 { '4' }
    else if d == 5 { '5' }
    else if d == 6 { '6' }
    else if d == 7 { '7' }
    else if d == 8 { '8' }
    else { '9' }
}

/// The decimal representation of `n`, without leading zeros.
pub open spec fn decimal(n: nat) -> Seq<char>
    decreases n,
{
    if n < 10 {
        seq![digit_char(n)]
    } else {
        decimal(n / 10).push(digit_char(n % 10))
    }
}

fn digit(d: u64) -> (r: char)
    requires
        d < 10,
    ensures
        r == digit_char(d as nat),
{
    if d == 0 { '0' }
    else if d == 1 { '1' }
    else if d == 2 { '2' }
    else if d == 3 { '3' }
    else if d == 4 { '4' }
    else if d == 5 { '5' }
    else if d == 6 { '6' }
    else if d == 7 { '7' }
    else if d == 8 { '8' }
    else { '9' }
}

/// Appends the decimal representation of `n` to `out`.
pub fn push_decimal(out: &mut Vec<char>, n: u64)
    ensures
        final(out)@ == old(out)@ + decimal(n as nat),
    decreases n,
{
    if n >= 10 {
        push_decimal(out, n / 10);
    }
    out.push(digit(n % 10));
    proof {
        if n >= 10 {
            assert(decimal(n as nat) == decimal((n / 10) as nat).push(digit_char((n % 10) as nat)));
        }
    }
}

/// The decimal representation of `n` as a string (`u64::to_string`).
pub fn decimal_string(n: u64) -> (r: String)
    ensures
        r@ == decimal(n as nat),
{
    let mut cs: Vec<char> = Vec::new();
    push_decimal(&mut cs, n);
    assert(cs@ =~= decimal(n as nat));
    string_from_chars(&cs)
}

// ---------------------------------------------------------------------------
// Scanning for characters
// ---------------------------------------------------------------------------

/// How many leading characters of `s` come before the first one that satisfies `stop`
/// (all of them when none does).
pub open spec fn prefix_len(s: Seq<char>, stop: spec_fn(char) -> bool) -> nat
    decreases s.len(),
{
    if s.len() == 0 || stop(s[0]) {
        0
    } else {
        1 + prefix_len(s.drop_first(), stop)
    }
}

pub proof fn lemma_prefix_len_bound(s: Seq<char>, stop: spec_fn(char) -> bool)
    ensures
        prefix_len(s, stop) <= s.len(),
        prefix_len(s, stop) < s.len() ==> stop(s[prefix_len(s, stop) as int]),
        forall|i: int| 0 <= i < prefix_len(s, stop) ==> !stop(#[trigger] s[i]),
    decreases s.len(),
{
    if s.len() > 0 && !stop(s[0]) {
        lemma_prefix_len_bound(s.drop_first(), stop);
        assert forall|i: int| 0 <= i < prefix_len(s, stop) implies !stop(#[trigger] s[i]) by {
            if i > 0 {
                assert(s[i] == s.drop_first()[i - 1]);
            }
        }
    }
}

pub proof fn lemma_prefix_len_step(s: Seq<char>, i: int, to: int, stop: spec_fn(char) -> bool)
    requires
        0 <= i < to <= s.len(),
    ensures
        prefix_len(s.subrange(i, to), stop) == if stop(s[i]) {
            0
        } else {
            1 + prefix_len(s.subrange(i + 1, to), stop)
        },
{
    assert(s.subrange(i, to).drop_first() =~= s.subrange(i + 1, to));
}

/// The line feed.
pub open spec fn newline_stop() -> spec_fn(char) -> bool {
    |c: char| c == '\n'
}

/// A line without the carriage return that ended it before its line feed.
pub open spec fn strip_cr(line: Seq<char>) -> Seq<char> {
    if line.len() > 0 && line.last() == '\r' {
        line.drop_last()
    } else {
        line
    }
}

/// `str::lines`: the text split at each line feed, a carriage return right before the line
/// feed dropped, and no empty line after a final line feed.
pub open spec fn lines(s: Seq<char>) -> Seq<Seq<char>>
    decreases s.len(),
{
    if s.len() == 0 {
        seq![]
    } else {
        let k = prefix_len(s, newline_stop()) as int;
        if k >= s.len() {
            seq![s]
        } else {
            proof {
                lemma_prefix_len_bound(s, newline_stop());
            }
            seq![strip_cr(s.take(k))] + lines(s.skip(k + 1))
        }
    }
}

/// The position of the first line feed at or after `from`, or the length.
pub fn next_newline(chars: &Vec<char>, from: usize) -> (k: usize)
    requires
        from <= chars.len(),
    ensures
        k == from + prefix_len(chars@.skip(from as int), newline_stop()),
        from <= k <= chars.len(),
{
    let mut k = from;
    assert(chars@.skip(from as int) =~= chars@.subrange(from as int, chars@.len() as int));
    while k < chars.len() && chars[k] != '\n'
        invariant
            from <= k <= chars.len(),
            from + prefix_len(chars@.subrange(from as int, chars@.len() as int), newline_stop())
                == k + prefix_len(chars@.subrange(k as int, chars@.len() as int), newline_stop()),
        decreases chars.len() - k,
    {
        proof {
            lemma_prefix_len_step(chars@, k as int, chars@.len() as int, newline_stop());
        }
        k = k + 1;
    }
    proof {
        if k < chars.len() {
            lemma_prefix_len_step(chars@, k as int, chars@.len() as int, newline_stop());
        }
    }
    k
}

/// The lines that follow position `from`, split into the first one and the rest.
pub proof fn lemma_lines_step(s: Seq<char>, from: int, k: int)
    requires
        0 <= from < s.len(),
        k == from + prefix_len(s.skip(from), newline_stop()),
        k <= s.len(),
    ensures
        k == s.len() ==> lines(s.skip(from)) == seq![s.subrange(from, s.len() as int)],
        k < s.len() ==> lines(s.skip(from)) == seq![strip_cr(s.subrange(from, k))] + lines(
            s.skip(k + 1),
        ),
{
    let t = s.skip(from);
    lemma_prefix_len_bound(t, newline_stop());
    assert(t =~= s.subrange(from, s.len() as int));
    if k < s.len() {
        assert(t.take(k - from) =~= s.subrange(from, k));
        assert(t.skip(k - from + 1) =~= s.skip(k + 1));
    }
}

/// The number of lines of a text, as `str::lines` counts them.
pub fn count_lines(chars: &Vec<char>) -> (r: usize)
    ensures
        r == lines(chars@).len(),
{
    let mut count: usize = 0;
    let mut start: usize = 0;
    assert(chars@.skip(0) =~= chars@);
    while start < chars.len()
        invariant
            start <= chars.len(),
            count <= start,
            count + lines(chars@.skip(start as int)).len() == lines(chars@).len(),
        decreases chars.len() - start,
    {
        let k = next_newline(chars, start);
        proof {
            lemma_lines_step(chars@, start as int, k as int);
        }
        count = count + 1;
        if k == chars.len() {
            start = chars.len();
            assert(chars@.skip(start as int) =~= Seq::<char>::empty());
        } else {
            start = k + 1;
        }
    }
    count
}

/// `s` with every `from` character replaced by `to` (`str::replace` on single characters).
pub open spec fn replace_char(s: Seq<char>, from: char, to: char) -> Seq<char> {
    s.map_values(|c: char| if c == from { to } else { c })
}

/// `chars[lo..hi]` with every `from` character replaced by `to`, as a string.
pub fn replaced_range(chars: &Vec<char>, lo: usize, hi: usize, from: char, to: char) -> (r: String)
    requires
        lo <= hi <= chars.len(),
    ensures
        r@ == replace_char(chars@.subrange(lo as int, hi as int), from, to),
{
    let mut r = String::new();
    let mut i = lo;
    while i < hi
        invariant
            lo <= i <= hi <= chars.len(),
            r@ == replace_char(chars@.subrange(lo as int, i as int), from, to),
        decreases hi - i,
    {
        let c = chars[i];
        push_char(&mut r, if c == from { to } else { c });
        i = i + 1;
        assert(replace_char(chars@.subrange(lo as int, i as int), from, to) =~= replace_char(
            chars@.subrange(lo as int, i - 1),
            from,
            to,
        ).push(if c == from { to } else { c }));
    }
    r
}

// ---------------------------------------------------------------------------
// Unicode case
// ---------------------------------------------------------------------------

/// What `str::to_lowercase` returns for `s` (the Unicode lowercase mapping).
pub uninterp spec fn unicode_lowercase(s: Seq<char>) -> Seq<char>;

/// Calls `str::to_lowercase`; the text it returns is named by `unicode_lowercase`.
#[verifier::external_body]
pub(crate) fn to_lowercase(s: &str) -> (r: String)
    ensures
        r@ == unicode_lowercase(s@),
{
    s.to_lowercase()
}

} // verus!
