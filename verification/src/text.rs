use vstd::prelude::*;
use vstd::string::*;

verus! {

// ---------------------------------------------------------------------------
// Character classes and per-character maps
// ---------------------------------------------------------------------------
/// Whitespace, read as the four ASCII whitespace characters. The key
/// normalizer is specified over ASCII throughout: help-document names are
/// ASCII, and only an ASCII model lets case- and whitespace-insensitivity
/// be stated and proved as laws.
pub open spec fn is_ws(c: char) -> bool {
    c == ' ' || c == '\t' || c == '\n' || c == '\r'
}

/// Lower-cases an ASCII letter; every other character is unchanged.
pub open spec fn lower_char(c: char) -> char {
    if 'A' <= c && c <= 'Z' {
        ((c as u32) + 32) as char
    } else {
        c
    }
}

/// Upper-cases an ASCII letter; every other character is unchanged.
pub open spec fn upper_char(c: char) -> char {
    if 'a' <= c && c <= 'z' {
        ((c as u32) - 32) as char
    } else {
        c
    }
}

/// One character of a lookup key: spaces become underscores, letters are
/// lower-cased, everything else is kept.
pub open spec fn norm_char(c: char) -> char {
    if c == ' ' {
        '_'
    } else {
        lower_char(c)
    }
}

pub open spec fn to_upper(s: Seq<char>) -> Seq<char> {
    s.map_values(|c: char| upper_char(c))
}

// ---------------------------------------------------------------------------
// Trimming
// ---------------------------------------------------------------------------
pub open spec fn trim_start_spec(s: Seq<char>) -> Seq<char>
    decreases s.len(),
{
    if s.len() > 0 && is_ws(s[0]) {
        trim_start_spec(s.drop_first())
    } else {
        s
    }
}

pub open spec fn trim_end_spec(s: Seq<char>) -> Seq<char>
    decreases s.len(),
{
    if s.len() > 0 && is_ws(s.last()) {
        trim_end_spec(s.drop_last())
    } else {
        s
    }
}

/// The string with surrounding whitespace removed.
pub open spec fn trim_spec(s: Seq<char>) -> Seq<char> {
    trim_end_spec(trim_start_spec(s))
}

pub open spec fn norm_seq(s: Seq<char>) -> Seq<char> {
    s.map_values(|c: char| norm_char(c))
}

/// The canonical lookup key of a display name: trim surrounding whitespace,
/// lower-case, and turn each space into an underscore. Lower-casing and
/// whitespace are ASCII (see `is_ws`): characters outside ASCII pass through
/// unchanged.
pub open spec fn key_of(s: Seq<char>) -> Seq<char> {
    norm_seq(trim_spec(s))
}

// ---------------------------------------------------------------------------
// Lemmas about trimming
// ---------------------------------------------------------------------------
pub proof fn lemma_trim_start_ws_prefix(s: Seq<char>, k: int)
    requires
        0 <= k <= s.len(),
        forall|i: int| 0 <= i < k ==> is_ws(s[i]),
    ensures
        trim_start_spec(s) == trim_start_spec(s.skip(k)),
    decreases k,
{
    if k > 0 {
        assert(s.drop_first() =~= s.skip(1));
        lemma_trim_start_ws_prefix(s.skip(1), k - 1);
        assert(s.skip(1).skip(k - 1) =~= s.skip(k));
    } else {
        assert(s.skip(0) =~= s);
    }
}

pub proof fn lemma_trim_end_ws_suffix(s: Seq<char>, k: int)
    requires
        0 <= k <= s.len(),
        forall|i: int| s.len() - k <= i < s.len() ==> is_ws(s[i]),
    ensures
        trim_end_spec(s) == trim_end_spec(s.take(s.len() - k)),
    decreases k,
{
    if k > 0 {
        assert(is_ws(s.last()));
        assert(s.drop_last() =~= s.take(s.len() - 1));
        lemma_trim_end_ws_suffix(s.take(s.len() - 1), k - 1);
        assert(s.take(s.len() - 1).take(s.len() - k) =~= s.take(s.len() - k));
    } else {
        assert(s.take(s.len() as int) =~= s);
    }
}

/// Trimming a string whose first and last characters are not whitespace
/// changes nothing.
pub proof fn lemma_trim_of_clean(s: Seq<char>)
    requires
        s.len() == 0 || (!is_ws(s[0]) && !is_ws(s.last())),
    ensures
        trim_spec(s) == s,
{
}

/// Trimming after cutting the whitespace margins [0, a) and [b, len) away.
pub proof fn lemma_trim_via_bounds(s: Seq<char>, a: int, b: int)
    requires
        0 <= a <= b <= s.len(),
        forall|i: int| 0 <= i < a ==> is_ws(s[i]),
        forall|i: int| b <= i < s.len() ==> is_ws(s[i]),
        a < b ==> !is_ws(s[a]) && !is_ws(s[b - 1]),
    ensures
        trim_spec(s) == s.subrange(a, b),
{
    lemma_trim_start_ws_prefix(s, a);
    let t = s.skip(a);
    assert(trim_start_spec(s) == trim_start_spec(t));
    if a < b {
        assert(!is_ws(t[0]));
        assert(trim_start_spec(t) == t);
        lemma_trim_end_ws_suffix(t, s.len() - b);
        assert(t.take(t.len() - (s.len() - b)) =~= s.subrange(a, b));
        let u = s.subrange(a, b);
        assert(!is_ws(u.last()));
        assert(trim_end_spec(u) == u);
    } else {
        assert(forall|i: int| 0 <= i < t.len() ==> #[trigger] is_ws(t[i]));
        lemma_trim_all_ws(t);
        assert(trim_start_spec(t).len() == 0);
        assert(trim_end_spec(trim_start_spec(t)) =~= s.subrange(a, b));
    }
}

/// A string of nothing but whitespace trims to the empty string.
pub proof fn lemma_trim_all_ws(s: Seq<char>)
    requires
        forall|i: int| 0 <= i < s.len() ==> is_ws(s[i]),
    ensures
        trim_start_spec(s).len() == 0,
    decreases s.len(),
{
    if s.len() > 0 {
        assert(s.drop_first() =~= s.skip(1));
        lemma_trim_all_ws(s.skip(1));
    }
}

/// The head of a trim-start result is never whitespace.
pub proof fn lemma_trim_start_head(s: Seq<char>)
    ensures
        trim_start_spec(s).len() > 0 ==> !is_ws(trim_start_spec(s)[0]),
    decreases s.len(),
{
    if s.len() > 0 && is_ws(s[0]) {
        lemma_trim_start_head(s.drop_first());
    }
}

/// Trimming the end keeps a non-whitespace head character in place.
pub proof fn lemma_trim_end_keeps_head(s: Seq<char>)
    requires
        s.len() > 0,
        !is_ws(s[0]),
    ensures
        trim_end_spec(s).len() > 0,
        trim_end_spec(s)[0] == s[0],
        !is_ws(trim_end_spec(s).last()),
    decreases s.len(),
{
    if is_ws(s.last()) {
        assert(s.drop_last()[0] == s[0]);
        lemma_trim_end_keeps_head(s.drop_last());
    }
}

/// A trimmed string is empty exactly when the string is all whitespace.
pub proof fn lemma_trim_empty_iff_all_ws(s: Seq<char>)
    ensures
        trim_spec(s).len() == 0 <==> (forall|i: int| 0 <= i < s.len() ==> is_ws(s[i])),
{
    if forall|i: int| 0 <= i < s.len() ==> is_ws(s[i]) {
        lemma_trim_all_ws(s);
    }
    if trim_spec(s).len() == 0 {
        if exists|i: int| 0 <= i < s.len() && !is_ws(s[i]) {
            let a = first_non_ws(s);
            lemma_first_non_ws(s);
            lemma_trim_start_ws_prefix(s, a);
            let t = s.skip(a);
            assert(!is_ws(t[0]));
            assert(trim_start_spec(t) == t);
            lemma_trim_end_keeps_head(t);
            assert(trim_spec(s).len() > 0);
        }
    }
}

/// The first index holding a non-whitespace character, or the length.
pub open spec fn first_non_ws(s: Seq<char>) -> int
    decreases s.len(),
{
    if s.len() == 0 {
        0
    } else if !is_ws(s[0]) {
        0
    } else {
        1 + first_non_ws(s.drop_first())
    }
}

pub proof fn lemma_first_non_ws(s: Seq<char>)
    ensures
        0 <= first_non_ws(s) <= s.len(),
        forall|i: int| 0 <= i < first_non_ws(s) ==> is_ws(s[i]),
        first_non_ws(s) < s.len() ==> !is_ws(s[first_non_ws(s)]),
    decreases s.len(),
{
    if s.len() > 0 && is_ws(s[0]) {
        lemma_first_non_ws(s.drop_first());
        assert(forall|i: int| 1 <= i < first_non_ws(s) ==> is_ws(s.drop_first()[i - 1]) && s[i]
            == s.drop_first()[i - 1]);
    }
}

// ---------------------------------------------------------------------------
// Trusted string primitive
// ---------------------------------------------------------------------------
/// Relies on String::push: appends one character to the end of the string.
#[verifier::external_body]
pub(crate) fn push_char(s: &mut String, c: char)
    ensures
        final(s)@ == old(s)@.push(c),
{
    s.push(c);
}

// ---------------------------------------------------------------------------
// Executable character and string helpers
// ---------------------------------------------------------------------------
pub fn is_ws_char(c: char) -> (r: bool)
    ensures
        r == is_ws(c),
{
    c == ' ' || c == '\t' || c == '\n' || c == '\r'
}

pub fn normalize_char(c: char) -> (r: char)
    ensures
        r == norm_char(c),
{
    if c == ' ' {
        '_'
    } else if 'A' <= c && c <= 'Z' {
        (((c as u32) + 32) as u8) as char
    } else {
        c
    }
}

/// The characters of a string slice, in order.
pub fn str_chars(s: &str) -> (r: Vec<char>)
    ensures
        r@ == s@,
{
    let n = s.unicode_len();
    let mut r: Vec<char> = Vec::new();
    let mut i: usize = 0;
    while i < n
        invariant
            n == s@.len(),
            i <= n,
            r@ == s@.take(i as int),
        decreases n - i,
    {
        r.push(s.get_char(i));
        i += 1;
        assert(r@ =~= s@.take(i as int));
    }
    assert(s@.take(n as int) =~= s@);
    r
}

/// Whether the range [start, end) of cs begins with the characters of pat.
pub fn range_has_prefix(cs: &Vec<char>, start: usize, end: usize, pat: &str) -> (r: bool)
    requires
        start <= end <= cs@.len(),
    ensures
        r == (end - start >= pat@.len() && cs@.subrange(
            start as int,
            start + pat@.len() as int,
        ) == pat@),
{
    let m = pat.unicode_len();
    if end - start < m {
        return false;
    }
    let mut j: usize = 0;
    while j < m
        invariant
            m == pat@.len(),
            start + m <= end <= cs@.len(),
            j <= m,
            forall|t: int| 0 <= t < j ==> cs@[start + t] == pat@[t],
        decreases m - j,
    {
        if cs[start + j] != pat.get_char(j) {
            assert(cs@.subrange(start as int, start + pat@.len() as int)[j as int]
                != pat@[j as int]);
            return false;
        }
        j += 1;
    }
    assert(cs@.subrange(start as int, start + pat@.len() as int) =~= pat@);
    true
}

/// Whether the range [start, end) of cs holds exactly the characters of s.
pub fn range_eq_str(cs: &Vec<char>, start: usize, end: usize, s: &str) -> (r: bool)
    requires
        start <= end <= cs@.len(),
    ensures
        r == (cs@.subrange(start as int, end as int) == s@),
{
    let m = s.unicode_len();
    if end - start != m {
        assert(cs@.subrange(start as int, end as int).len() != s@.len());
        return false;
    }
    let eq = range_has_prefix(cs, start, end, s);
    if eq {
        assert(cs@.subrange(start as int, start + s@.len() as int) =~= cs@.subrange(
            start as int,
            end as int,
        ));
    } else {
        assert(cs@.subrange(start as int, start + s@.len() as int) =~= cs@.subrange(
            start as int,
            end as int,
        ));
    }
    eq
}

// ---------------------------------------------------------------------------
// The key normalizer
// ---------------------------------------------------------------------------
/// The canonical lookup key of a display name: surrounding whitespace is
/// trimmed, ASCII letters are lower-cased, and spaces become underscores.
/// Pure, total and deterministic; see `key_of` for the ASCII reading.
pub fn text_to_key(text: &str) -> (r: String)
    ensures
        r@ == key_of(text@),
{
    let cs = str_chars(text);
    let n = cs.len();
    let mut a: usize = 0;
    while a < n && is_ws_char(cs[a])
        invariant
            n == cs@.len(),
            a <= n,
            forall|i: int| 0 <= i < a ==> is_ws(cs@[i]),
        decreases n - a,
    {
        a += 1;
    }
    let mut b: usize = n;
    while b > a && is_ws_char(cs[b - 1])
        invariant
            a <= b <= n == cs@.len(),
            forall|i: int| b <= i < n ==> is_ws(cs@[i]),
        decreases b,
    {
        b -= 1;
    }
    proof {
        lemma_trim_via_bounds(cs@, a as int, b as int);
    }
    let mut out = String::new();
    let mut i: usize = a;
    while i < b
        invariant
            a <= i <= b <= cs@.len(),
            trim_spec(cs@) == cs@.subrange(a as int, b as int),
            out@ == norm_seq(cs@.subrange(a as int, i as int)),
        decreases b - i,
    {
        push_char(&mut out, normalize_char(cs[i]));
        i += 1;
        assert(out@ =~= norm_seq(cs@.subrange(a as int, i as int)));
    }
    out
}

/// Whether a string trims to nothing: the sentinel for "no further sibling
/// sections remain".
pub fn is_blank(s: &str) -> (r: bool)
    ensures
        r == (trim_spec(s@).len() == 0),
{
    let n = s.unicode_len();
    let mut i: usize = 0;
    let mut all_ws = true;
    while i < n
        invariant
            i <= n == s@.len(),
            all_ws == (forall|t: int| 0 <= t < i ==> #[trigger] is_ws(s@[t])),
        decreases n - i,
    {
        if !is_ws_char(s.get_char(i)) {
            all_ws = false;
        }
        i += 1;
    }
    proof {
        lemma_trim_empty_iff_all_ws(s@);
    }
    all_ws
}

// ---------------------------------------------------------------------------
// Substring search
// ---------------------------------------------------------------------------
/// Whether needle occurs as a contiguous run of characters inside hay.
pub open spec fn contains_seq(hay: Seq<char>, needle: Seq<char>) -> bool {
    exists|i: int|
        0 <= i <= hay.len() - needle.len() && #[trigger] hay.subrange(i, i + needle.len())
            == needle
}

pub fn contains_sub(hay: &str, needle: &str) -> (r: bool)
    ensures
        r == contains_seq(hay@, needle@),
{
    let h = str_chars(hay);
    let n = str_chars(needle);
    let hn = h.len();
    let nn = n.len();
    if nn > hn {
        return false;
    }
    if nn == 0 {
        assert(hay@.subrange(0, 0 + needle@.len() as int) =~= needle@);
        return true;
    }
    let mut i: usize = 0;
    while i <= hn - nn
        invariant
            hn == hay@.len(),
            nn == needle@.len(),
            0 < nn <= hn,
            h@ == hay@,
            n@ == needle@,
            i <= hn - nn + 1,
            forall|t: int|
                0 <= t < i ==> #[trigger] hay@.subrange(t, t + needle@.len()) != needle@,
        decreases hn - i,
    {
        let hit = range_has_prefix(&h, i, i + nn, needle);
        if hit {
            return true;
        }
        assert(hay@.subrange(i as int, i + needle@.len()) != needle@);
        i += 1;
    }
    false
}

// ---------------------------------------------------------------------------
// Laws of the key normalizer
// ---------------------------------------------------------------------------
/// Normalizing twice is the same as normalizing once: the key of a key is
/// the key itself.
pub proof fn lemma_key_of_idempotent(s: Seq<char>)
    ensures
        key_of(key_of(s)) == key_of(s),
{
    let t = trim_spec(s);
    let k = norm_seq(t);
    lemma_trim_start_head(s);
    if trim_start_spec(s).len() > 0 && !is_ws(trim_start_spec(s)[0]) {
        lemma_trim_end_keeps_head(trim_start_spec(s));
    }
    assert(t.len() == 0 || (!is_ws(t[0]) && !is_ws(t.last())));
    assert forall|i: int| 0 <= i < t.len() implies !is_ws(norm_char(t[i])) || is_ws(t[i]) by {
        lemma_norm_char_shape(t[i]);
    }
    if k.len() > 0 {
        lemma_norm_char_shape(t[0]);
        lemma_norm_char_shape(t[t.len() - 1]);
        assert(k[0] == norm_char(t[0]) && !is_ws(k[0]));
        assert(k.last() == norm_char(t.last()) && !is_ws(k.last()));
    }
    lemma_trim_of_clean(k);
    assert(trim_spec(k) == k);
    assert forall|i: int| 0 <= i < k.len() implies norm_char(k[i]) == k[i] by {
        lemma_norm_char_shape(t[i]);
    }
    assert(norm_seq(k) =~= k);
}

/// What a normalized character can be: never a space, never an upper-case
/// ASCII letter, and whitespace only if it already was whitespace.
proof fn lemma_norm_char_shape(c: char)
    ensures
        !is_ws(c) ==> !is_ws(norm_char(c)),
        norm_char(norm_char(c)) == norm_char(c),
{
}

/// The key is indifferent to surrounding whitespace and to letter case.
pub proof fn lemma_key_of_upper_padded(s: Seq<char>, pad_l: Seq<char>, pad_r: Seq<char>)
    requires
        forall|i: int| 0 <= i < pad_l.len() ==> is_ws(pad_l[i]),
        forall|i: int| 0 <= i < pad_r.len() ==> is_ws(pad_r[i]),
    ensures
        key_of(pad_l + to_upper(s) + pad_r) == key_of(s),
{
    let u = to_upper(s);
    let w = pad_l + u + pad_r;
    assert forall|i: int| 0 <= i < s.len() implies is_ws(u[i]) == is_ws(s[i]) by {
        lemma_upper_char_ws(s[i]);
    }
    lemma_first_non_ws(s);
    lemma_ws_suffix_start(s);
    let a = first_non_ws(s);
    let b = ws_suffix_start(s);
    if a == s.len() {
        lemma_trim_all_ws(s);
        assert forall|i: int| 0 <= i < w.len() implies #[trigger] is_ws(w[i]) by {
            if pad_l.len() <= i < pad_l.len() + s.len() {
                assert(w[i] == u[i - pad_l.len()]);
            }
        }
        lemma_trim_all_ws(w);
        assert(trim_spec(s).len() == 0 && trim_spec(w).len() == 0);
        assert(norm_seq(trim_spec(w)) =~= norm_seq(trim_spec(s)));
    } else {
        assert(!is_ws(s[a]));
        assert(a < b);
        lemma_trim_via_bounds(s, a, b);
        let aw = pad_l.len() + a;
        let bw = pad_l.len() + b;
        assert forall|i: int| 0 <= i < aw implies is_ws(w[i]) by {
            if pad_l.len() <= i {
                assert(w[i] == u[i - pad_l.len()]);
            }
        }
        assert forall|i: int| bw <= i < w.len() implies is_ws(w[i]) by {
            if i < pad_l.len() + s.len() {
                assert(w[i] == u[i - pad_l.len()]);
            }
        }
        assert(w[aw as int] == u[a] && !is_ws(u[a]));
        assert(w[bw - 1] == u[b - 1] && !is_ws(u[b - 1]));
        lemma_trim_via_bounds(w, aw as int, bw as int);
        assert(w.subrange(aw as int, bw as int) =~= to_upper(s.subrange(a, b)));
        let c = s.subrange(a, b);
        assert forall|i: int| 0 <= i < c.len() implies norm_char(to_upper(c)[i]) == norm_char(
            c[i],
        ) by {
            lemma_norm_upper(c[i]);
        }
        assert(norm_seq(to_upper(c)) =~= norm_seq(c));
    }
}

/// Index just past the last non-whitespace character, or zero.
pub open spec fn ws_suffix_start(s: Seq<char>) -> int
    decreases s.len(),
{
    if s.len() == 0 {
        0
    } else if !is_ws(s.last()) {
        s.len() as int
    } else {
        ws_suffix_start(s.drop_last())
    }
}

proof fn lemma_ws_suffix_start(s: Seq<char>)
    ensures
        0 <= ws_suffix_start(s) <= s.len(),
        forall|i: int| ws_suffix_start(s) <= i < s.len() ==> is_ws(s[i]),
        ws_suffix_start(s) > 0 ==> !is_ws(s[ws_suffix_start(s) - 1]),
    decreases s.len(),
{
    if s.len() > 0 && is_ws(s.last()) {
        lemma_ws_suffix_start(s.drop_last());
        assert(forall|i: int| 0 <= i < s.len() - 1 ==> s.drop_last()[i] == s[i]);
    }
}

proof fn lemma_upper_char_ws(c: char)
    ensures
        is_ws(upper_char(c)) == is_ws(c),
{
}

proof fn lemma_norm_upper(c: char)
    ensures
        norm_char(upper_char(c)) == norm_char(c),
{
}

} // verus!

