//! Character-level text operations with their mathematical meaning.
//!
//! Strings are handled through their view, a `Seq<char>`.  The spec functions
//! here state what `trim`, `contains`, `starts_with`, lowercase mapping and
//! friends mean; the exec functions compute them and prove it.
use vstd::prelude::*;

verus! {

// ---------------------------------------------------------------------------
// Conversions between `str`/`String` and character vectors
// ---------------------------------------------------------------------------

/// The characters of `s`, in order.
pub fn chars_of(s: &str) -> (r: Vec<char>)
    ensures
        r@ == s@,
{
    let mut out: Vec<char> = Vec::new();
    for c in it: s.chars()
        invariant
            out@ == it.seq().take(it.index() as int),
            it.seq() == s@,
    {
        out.push(c);
        assert(it.seq().take(it.index() + 1) == it.seq().take(it.index() as int).push(c));
    }
    assert(out@ == s@);
    out
}

/// `str::to_lowercase`: the Unicode lowercase mapping of a string.
pub uninterp spec fn unicode_lowercase(s: Seq<char>) -> Seq<char>;

/// Whether every character of `s` is ASCII.
pub open spec fn all_ascii(s: Seq<char>) -> bool {
    forall|i: int| 0 <= i < s.len() ==> (#[trigger] s[i] as u32) < 128
}

/// Calls `str::to_lowercase`; its result is the lowercase mapping that std
/// computes from the Unicode tables, named here as `unicode_lowercase`.  Of
/// ASCII text it is the ASCII lowercase mapping (the Unicode lowercase of
/// an ASCII character is its ASCII lowercase); other text is not stated
/// further.
#[verifier::external_body]
pub(crate) fn str_to_lowercase(s: &str) -> (r: String)
    ensures
        r@ == unicode_lowercase(s@),
        all_ascii(s@) ==> r@ == lower(s@),
{
    s.to_lowercase()
}

/// Appends one character to a `String` (std's `String::push`).
#[verifier::external_body]
pub fn push_char(s: &mut String, c: char)
    ensures
        final(s)@ == old(s)@.push(c),
{
    s.push(c);
}

/// A `String` holding exactly the characters `cs[from..to]`.
pub fn string_from_range(cs: &Vec<char>, from: usize, to: usize) -> (r: String)
    requires
        from <= to <= cs@.len(),
    ensures
        r@ == cs@.subrange(from as int, to as int),
{
    let mut out = String::new();
    let mut i = from;
    while i < to
        invariant
            from <= i <= to <= cs@.len(),
            out@ == cs@.subrange(from as int, i as int),
        decreases to - i,
    {
        push_char(&mut out, cs[i]);
        assert(cs@.subrange(from as int, i + 1) == cs@.subrange(from as int, i as int).push(
            cs@[i as int],
        ));
        i = i + 1;
    }
    out
}

/// A `String` holding exactly the characters of `cs`.
pub fn string_from_chars(cs: &Vec<char>) -> (r: String)
    ensures
        r@ == cs@,
{
    let r = string_from_range(cs, 0, cs.len());
    assert(cs@.subrange(0, cs@.len() as int) == cs@);
    r
}

/// A copy of `s` as an owned `String`.
pub fn to_owned_string(s: &str) -> (r: String)
    ensures
        r@ == s@,
{
    s.to_owned()
}

/// Appends all characters of `t` to `out`.
pub fn push_str(out: &mut String, t: &str)
    ensures
        final(out)@ == old(out)@ + t@,
{
    let cs = chars_of(t);
    let mut i: usize = 0;
    while i < cs.len()
        invariant
            i <= cs@.len(),
            cs@ == t@,
            out@ == old(out)@ + cs@.subrange(0, i as int),
        decreases cs.len() - i,
    {
        push_char(out, cs[i]);
        assert(cs@.subrange(0, i + 1) == cs@.subrange(0, i as int).push(cs@[i as int]));
        i = i + 1;
    }
    assert(cs@.subrange(0, cs@.len() as int) == cs@);
}

/// `a` followed by `b`, as a new `String`.
pub fn concat(a: &str, b: &str) -> (r: String)
    ensures
        r@ == a@ + b@,
{
    let mut out = to_owned_string(a);
    push_str(&mut out, b);
    out
}

// ---------------------------------------------------------------------------
// Character classes
// ---------------------------------------------------------------------------

/// Unicode `White_Space`, the set that `char::is_whitespace` tests.
pub open spec fn is_ws(c: char) -> bool {
    ('\u{9}' <= c && c <= '\u{d}') || c == ' ' || c == '\u{85}' || c == '\u{a0}' || c
        == '\u{1680}' || ('\u{2000}' <= c && c <= '\u{200a}') || c == '\u{2028}' || c == '\u{2029}'
        || c == '\u{202f}' || c == '\u{205f}' || c == '\u{3000}'
}

pub fn is_ws_char(c: char) -> (b: bool)
    ensures
        b == is_ws(c),
{
    ('\u{9}' <= c && c <= '\u{d}') || c == ' ' || c == '\u{85}' || c == '\u{a0}' || c
        == '\u{1680}' || ('\u{2000}' <= c && c <= '\u{200a}') || c == '\u{2028}' || c == '\u{2029}'
        || c == '\u{202f}' || c == '\u{205f}' || c == '\u{3000}'
}

pub open spec fn is_ascii_upper(c: char) -> bool {
    'A' <= c && c <= 'Z'
}

pub open spec fn is_ascii_alnum(c: char) -> bool {
    ('0' <= c && c <= '9') || ('a' <= c && c <= 'z') || ('A' <= c && c <= 'Z')
}

pub fn is_ascii_alnum_char(c: char) -> (b: bool)
    ensures
        b == is_ascii_alnum(c),
{
    ('0' <= c && c <= '9') || ('a' <= c && c <= 'z') || ('A' <= c && c <= 'Z')
}

pub open spec fn is_ascii_digit(c: char) -> bool {
    '0' <= c && c <= '9'
}

/// `char::to_ascii_lowercase`.
pub open spec fn lower_char(c: char) -> char {
    if is_ascii_upper(c) {
        ((c as u32) + 32) as char
    } else {
        c
    }
}

pub fn lower_char_exec(c: char) -> (r: char)
    ensures
        r == lower_char(c),
{
    if 'A' <= c && c <= 'Z' {
        let b = (c as u8) + 32;
        assert(b as u32 == (c as u32) + 32);
        b as char
    } else {
        c
    }
}

/// `str::to_ascii_lowercase`.
pub open spec fn lower(s: Seq<char>) -> Seq<char> {
    s.map_values(|c: char| lower_char(c))
}

pub fn lower_chars(s: &Vec<char>) -> (r: Vec<char>)
    ensures
        r@ == lower(s@),
{
    let mut out: Vec<char> = Vec::new();
    let mut i: usize = 0;
    while i < s.len()
        invariant
            i <= s@.len(),
            out@ == lower(s@.subrange(0, i as int)),
        decreases s.len() - i,
    {
        out.push(lower_char_exec(s[i]));
        assert(lower(s@.subrange(0, i + 1)) == lower(s@.subrange(0, i as int)).push(
            lower_char(s@[i as int]),
        ));
        i = i + 1;
    }
    assert(s@.subrange(0, s@.len() as int) == s@);
    out
}

pub fn to_ascii_lowercase(s: &str) -> (r: String)
    ensures
        r@ == lower(s@),
{
    let cs = chars_of(s);
    let lowered = lower_chars(&cs);
    string_from_chars(&lowered)
}

// ---------------------------------------------------------------------------
// Trimming
// ---------------------------------------------------------------------------

/// A set of characters, used to trim and to split text.
#[derive(Clone, Copy, PartialEq, Eq)]
pub enum CharClass {
    /// `char::is_whitespace`.
    Whitespace,
    /// Whitespace and the quoting/punctuation characters `` ` " ' , ; . ) ( ``.
    RefPunct,
    /// One given character.
    One(char),
    /// Everything but ASCII letters and digits.
    NonAlnum,
    /// Everything but ASCII letters, digits and `_`.
    NonAlnumUnderscore,
}

impl CharClass {
    pub open spec fn has(self, c: char) -> bool {
        match self {
            CharClass::Whitespace => is_ws(c),
            CharClass::RefPunct => is_ws(c) || c == '`' || c == '"' || c == '\'' || c == ','
                || c == ';' || c == '.' || c == ')' || c == '(',
            CharClass::One(x) => c == x,
            CharClass::NonAlnum => !is_ascii_alnum(c),
            CharClass::NonAlnumUnderscore => !is_ascii_alnum(c) && c != '_',
        }
    }

    pub fn contains(&self, c: char) -> (b: bool)
        ensures
            b == self.has(c),
    {
        match self {
            CharClass::Whitespace => is_ws_char(c),
            CharClass::RefPunct => is_ws_char(c) || c == '`' || c == '"' || c == '\'' || c == ','
                || c == ';' || c == '.' || c == ')' || c == '(',
            CharClass::One(x) => c == *x,
            CharClass::NonAlnum => !is_ascii_alnum_char(c),
            CharClass::NonAlnumUnderscore => !is_ascii_alnum_char(c) && c != '_',
        }
    }
}

/// `k` is the length of the longest prefix of `s` made of `set` characters.
pub open spec fn is_lead_len(s: Seq<char>, set: CharClass, k: int) -> bool {
    &&& 0 <= k <= s.len()
    &&& forall|j: int| 0 <= j < k ==> set.has(#[trigger] s[j])
    &&& k < s.len() ==> !set.has(s[k])
}

/// `k` is where the longest suffix of `s` made of `set` characters begins.
pub open spec fn is_trail_start(s: Seq<char>, set: CharClass, k: int) -> bool {
    &&& 0 <= k <= s.len()
    &&& forall|j: int| k <= j < s.len() ==> set.has(#[trigger] s[j])
    &&& k > 0 ==> !set.has(s[k - 1])
}

pub open spec fn lead_len(s: Seq<char>, set: CharClass) -> int {
    choose|k: int| is_lead_len(s, set, k)
}

pub open spec fn trail_start(s: Seq<char>, set: CharClass) -> int {
    choose|k: int| is_trail_start(s, set, k)
}

/// `str::trim_start_matches` with a character set.
pub open spec fn trim_start_by(s: Seq<char>, set: CharClass) -> Seq<char> {
    s.subrange(lead_len(s, set), s.len() as int)
}

/// `str::trim_end_matches` with a character set.
pub open spec fn trim_end_by(s: Seq<char>, set: CharClass) -> Seq<char> {
    s.subrange(0, trail_start(s, set))
}

/// `str::trim_matches` with a character set (`str::trim` for whitespace).
pub open spec fn trim_by(s: Seq<char>, set: CharClass) -> Seq<char> {
    trim_end_by(trim_start_by(s, set), set)
}

pub open spec fn trim(s: Seq<char>) -> Seq<char> {
    trim_by(s, CharClass::Whitespace)
}

pub proof fn lemma_lead_len_unique(s: Seq<char>, set: CharClass, k: int)
    requires
        is_lead_len(s, set, k),
    ensures
        lead_len(s, set) == k,
{
    let c = lead_len(s, set);
    assert(is_lead_len(s, set, c));
    if c < k {
        assert(set.has(s[c]));
    }
    if k < c {
        assert(set.has(s[k]));
    }
}

pub proof fn lemma_trail_start_unique(s: Seq<char>, set: CharClass, k: int)
    requires
        is_trail_start(s, set, k),
    ensures
        trail_start(s, set) == k,
{
    let c = trail_start(s, set);
    assert(is_trail_start(s, set, c));
    if c < k {
        assert(set.has(s[k - 1]));
    }
    if k < c {
        assert(set.has(s[c - 1]));
    }
}

/// The bounds `(a, b)` with `trim_by(s, set) == s[a..b]`.
pub fn trim_bounds(s: &Vec<char>, set: CharClass) -> (r: (usize, usize))
    ensures
        r.0 <= r.1 <= s@.len(),
        s@.subrange(r.0 as int, r.1 as int) == trim_by(s@, set),
        trim_start_by(s@, set) == s@.subrange(r.0 as int, s@.len() as int),
{
    let n = s.len();
    let mut a: usize = 0;
    while a < n && set.contains(s[a])
        invariant
            a <= n == s@.len(),
            forall|j: int| 0 <= j < a ==> set.has(#[trigger] s@[j]),
        decreases n - a,
    {
        a = a + 1;
    }
    proof {
        lemma_lead_len_unique(s@, set, a as int);
    }
    let ghost t = s@.subrange(a as int, n as int);
    let mut b: usize = n;
    while b > a && set.contains(s[b - 1])
        invariant
            a <= b <= n == s@.len(),
            t == s@.subrange(a as int, n as int),
            forall|j: int| b <= j < n ==> set.has(#[trigger] s@[j]),
        decreases b - a,
    {
        b = b - 1;
    }
    proof {
        assert forall|j: int| (b - a) <= j < t.len() implies set.has(#[trigger] t[j]) by {
            assert(t[j] == s@[j + a]);
        }
        if b > a {
            assert(t[(b - a) - 1] == s@[b - 1]);
        }
        assert(is_trail_start(t, set, (b - a) as int));
        lemma_trail_start_unique(t, set, (b - a) as int);
        assert(t.subrange(0, (b - a) as int) == s@.subrange(a as int, b as int));
    }
    (a, b)
}

/// `str::trim_matches` for a character set, as a new `String`.
pub fn trim_str_by(s: &str, set: CharClass) -> (r: String)
    ensures
        r@ == trim_by(s@, set),
{
    let cs = chars_of(s);
    let (a, b) = trim_bounds(&cs, set);
    string_from_range(&cs, a, b)
}

/// `str::trim`, as a new `String`.
pub fn trim_str(s: &str) -> (r: String)
    ensures
        r@ == trim(s@),
{
    trim_str_by(s, CharClass::Whitespace)
}

/// Whether `str::trim(s)` is empty.
pub fn is_blank(s: &str) -> (b: bool)
    ensures
        b == (trim(s@).len() == 0),
{
    let t = trim_str(s);
    t.as_str().is_empty()
}

// ---------------------------------------------------------------------------
// Prefixes, suffixes, substrings
// ---------------------------------------------------------------------------

pub open spec fn starts_with(s: Seq<char>, p: Seq<char>) -> bool {
    p.len() <= s.len() && s.subrange(0, p.len() as int) == p
}

pub open spec fn ends_with(s: Seq<char>, p: Seq<char>) -> bool {
    p.len() <= s.len() && s.subrange(s.len() - p.len(), s.len() as int) == p
}

/// `needle` occurs in `hay` at position `i`.
pub open spec fn occurs_at(hay: Seq<char>, needle: Seq<char>, i: int) -> bool {
    0 <= i && i + needle.len() <= hay.len() && hay.subrange(i, i + needle.len()) == needle
}

/// `str::contains` with a string pattern.
pub open spec fn contains(hay: Seq<char>, needle: Seq<char>) -> bool {
    exists|i: int| occurs_at(hay, needle, i)
}

/// Whether `p` matches `s` at `at`, comparing character by character.
pub fn matches_at(s: &Vec<char>, p: &Vec<char>, at: usize) -> (b: bool)
    ensures
        b == occurs_at(s@, p@, at as int),
{
    if p.len() > s.len() || at > s.len() - p.len() {
        return false;
    }
    let n = s.len();
    let mut j: usize = 0;
    while j < p.len()
        invariant
            n == s@.len(),
            at + p@.len() <= n,
            j <= p@.len(),
            forall|k: int| 0 <= k < j ==> s@[at + k] == p@[k],
        decreases p.len() - j,
    {
        if s[at + j] != p[j] {
            assert(s@.subrange(at as int, at + p@.len())[j as int] != p@[j as int]);
            return false;
        }
        j = j + 1;
    }
    assert(s@.subrange(at as int, at + p@.len()) =~= p@);
    true
}

pub fn starts_with_chars(s: &Vec<char>, p: &Vec<char>) -> (b: bool)
    ensures
        b == starts_with(s@, p@),
{
    matches_at(s, p, 0)
}

pub fn ends_with_chars(s: &Vec<char>, p: &Vec<char>) -> (b: bool)
    ensures
        b == ends_with(s@, p@),
{
    if p.len() > s.len() {
        return false;
    }
    matches_at(s, p, s.len() - p.len())
}

/// The first position where `p` occurs in `s`, if any.
pub fn find_chars(s: &Vec<char>, p: &Vec<char>) -> (r: Option<usize>)
    ensures
        match r {
            Some(i) => occurs_at(s@, p@, i as int) && forall|k: int|
                0 <= k < i ==> !occurs_at(s@, p@, k),
            None => !contains(s@, p@),
        },
{
    if p.len() > s.len() {
        assert forall|k: int| !occurs_at(s@, p@, k) by {}
        return None;
    }
    let last = s.len() - p.len();
    let mut i: usize = 0;
    loop
        invariant
            last + p@.len() == s@.len(),
            i <= last,
            forall|k: int| 0 <= k < i ==> !occurs_at(s@, p@, k),
        ensures
            forall|k: int| 0 <= k <= last ==> !occurs_at(s@, p@, k),
        decreases last - i,
    {
        if matches_at(s, p, i) {
            return Some(i);
        }
        if i == last {
            break;
        }
        i = i + 1;
    }
    assert forall|k: int| !occurs_at(s@, p@, k) by {
        if 0 <= k && k + p@.len() <= s@.len() {
            assert(k <= last);
        }
    }
    None
}

pub fn contains_chars(s: &Vec<char>, p: &Vec<char>) -> (b: bool)
    ensures
        b == contains(s@, p@),
{
    match find_chars(s, p) {
        Some(_) => true,
        None => false,
    }
}

/// `str::contains`.
pub fn str_contains(s: &str, p: &str) -> (b: bool)
    ensures
        b == contains(s@, p@),
{
    let a = chars_of(s);
    let b = chars_of(p);
    contains_chars(&a, &b)
}

/// `str::starts_with`.
pub fn str_starts_with(s: &str, p: &str) -> (b: bool)
    ensures
        b == starts_with(s@, p@),
{
    let a = chars_of(s);
    let b = chars_of(p);
    starts_with_chars(&a, &b)
}

/// `str::ends_with`.
pub fn str_ends_with(s: &str, p: &str) -> (b: bool)
    ensures
        b == ends_with(s@, p@),
{
    let a = chars_of(s);
    let b = chars_of(p);
    ends_with_chars(&a, &b)
}

/// `str::strip_prefix`.
pub open spec fn strip_prefix(s: Seq<char>, p: Seq<char>) -> Option<Seq<char>> {
    if starts_with(s, p) {
        Some(s.subrange(p.len() as int, s.len() as int))
    } else {
        None
    }
}

/// `str::strip_suffix`.
pub open spec fn strip_suffix(s: Seq<char>, p: Seq<char>) -> Option<Seq<char>> {
    if ends_with(s, p) {
        Some(s.subrange(0, s.len() - p.len()))
    } else {
        None
    }
}

pub fn str_strip_prefix(s: &str, p: &str) -> (r: Option<String>)
    ensures
        match r {
            Some(t) => strip_prefix(s@, p@) == Some(t@),
            None => strip_prefix(s@, p@) is None,
        },
{
    let a = chars_of(s);
    let b = chars_of(p);
    if starts_with_chars(&a, &b) {
        Some(string_from_range(&a, b.len(), a.len()))
    } else {
        None
    }
}

pub fn str_strip_suffix(s: &str, p: &str) -> (r: Option<String>)
    ensures
        match r {
            Some(t) => strip_suffix(s@, p@) == Some(t@),
            None => strip_suffix(s@, p@) is None,
        },
{
    let a = chars_of(s);
    let b = chars_of(p);
    if ends_with_chars(&a, &b) {
        Some(string_from_range(&a, 0, a.len() - b.len()))
    } else {
        None
    }
}

/// Where the last occurrence of `p` in `s` starts, or -1.
pub open spec fn last_occ(s: Seq<char>, p: Seq<char>) -> int
    decreases s.len(),
{
    if p.len() == 0 || p.len() > s.len() {
        -1
    } else if ends_with(s, p) {
        s.len() - p.len()
    } else {
        last_occ(s.drop_last(), p)
    }
}

/// Where the first occurrence of `p` in `s` starts, or -1.
pub open spec fn first_occ(s: Seq<char>, p: Seq<char>) -> int
    decreases s.len(),
{
    if p.len() == 0 || p.len() > s.len() {
        -1
    } else if starts_with(s, p) {
        0
    } else {
        let r = first_occ(s.drop_first(), p);
        if r >= 0 {
            r + 1
        } else {
            -1
        }
    }
}

/// `str::rsplit_once`: the text before and after the last occurrence of `p`.
pub open spec fn rsplit_once_spec(s: Seq<char>, p: Seq<char>) -> Option<(Seq<char>, Seq<char>)> {
    let i = last_occ(s, p);
    if i >= 0 {
        Some((s.subrange(0, i), s.subrange(i + p.len(), s.len() as int)))
    } else {
        None
    }
}

/// `str::split_once`: the text before and after the first occurrence of `p`.
pub open spec fn split_once_spec(s: Seq<char>, p: Seq<char>) -> Option<(Seq<char>, Seq<char>)> {
    let i = first_occ(s, p);
    if i >= 0 {
        Some((s.subrange(0, i), s.subrange(i + p.len(), s.len() as int)))
    } else {
        None
    }
}

pub proof fn lemma_last_occ_bounds(s: Seq<char>, p: Seq<char>)
    ensures
        last_occ(s, p) >= 0 ==> last_occ(s, p) + p.len() <= s.len(),
        last_occ(s, p) >= -1,
    decreases s.len(),
{
    if p.len() > 0 && p.len() <= s.len() && !ends_with(s, p) {
        lemma_last_occ_bounds(s.drop_last(), p);
    }
}

pub proof fn lemma_first_occ_bounds(s: Seq<char>, p: Seq<char>)
    ensures
        first_occ(s, p) >= 0 ==> first_occ(s, p) + p.len() <= s.len(),
        first_occ(s, p) >= -1,
    decreases s.len(),
{
    if p.len() > 0 && p.len() <= s.len() && !starts_with(s, p) {
        lemma_first_occ_bounds(s.drop_first(), p);
    }
}

/// Where the last occurrence of `p` starts, searching from the end.
pub fn last_occurrence(cs: &Vec<char>, ps: &Vec<char>) -> (r: Option<usize>)
    ensures
        match r {
            Some(i) => last_occ(cs@, ps@) == i as int,
            None => last_occ(cs@, ps@) == -1,
        },
{
    if ps.len() == 0 || ps.len() > cs.len() {
        return None;
    }
    let mut end: usize = cs.len();
    assert(cs@.subrange(0, end as int) =~= cs@);
    while end >= ps.len()
        invariant
            ps@.len() > 0,
            end <= cs@.len(),
            last_occ(cs@, ps@) == last_occ(cs@.subrange(0, end as int), ps@),
        decreases end,
    {
        let i = end - ps.len();
        let ghost t = cs@.subrange(0, end as int);
        if matches_at(cs, ps, i) {
            assert(t.subrange(t.len() - ps@.len(), t.len() as int) =~= cs@.subrange(i as int, end as int));
            return Some(i);
        }
        assert(!ends_with(t, ps@)) by {
            if ends_with(t, ps@) {
                assert(t.subrange(t.len() - ps@.len(), t.len() as int) =~= cs@.subrange(i as int, end as int));
            }
        }
        assert(t.drop_last() =~= cs@.subrange(0, end - 1));
        end = end - 1;
    }
    None
}

/// Where the first occurrence of `p` starts.
pub fn first_occurrence(cs: &Vec<char>, ps: &Vec<char>) -> (r: Option<usize>)
    ensures
        match r {
            Some(i) => first_occ(cs@, ps@) == i as int,
            None => first_occ(cs@, ps@) == -1,
        },
{
    if ps.len() == 0 || ps.len() > cs.len() {
        return None;
    }
    let mut i: usize = 0;
    assert(cs@.subrange(0, cs@.len() as int) =~= cs@);
    while i <= cs.len() - ps.len()
        invariant
            ps@.len() > 0,
            ps@.len() <= cs@.len(),
            i + ps@.len() <= cs@.len() + 1,
            first_occ(cs@, ps@) == if first_occ(cs@.subrange(i as int, cs@.len() as int), ps@) >= 0 {
                first_occ(cs@.subrange(i as int, cs@.len() as int), ps@) + i
            } else {
                -1
            },
        decreases cs.len() + 1 - i,
    {
        let ghost t = cs@.subrange(i as int, cs@.len() as int);
        if matches_at(cs, ps, i) {
            assert(t.subrange(0, ps@.len() as int) =~= cs@.subrange(i as int, i + ps@.len()));
            return Some(i);
        }
        assert(!starts_with(t, ps@)) by {
            if starts_with(t, ps@) {
                assert(t.subrange(0, ps@.len() as int) =~= cs@.subrange(i as int, i + ps@.len()));
            }
        }
        assert(t.drop_first() =~= cs@.subrange(i + 1, cs@.len() as int));
        i = i + 1;
    }
    proof {
        let t = cs@.subrange(i as int, cs@.len() as int);
        assert(ps@.len() > t.len());
    }
    None
}

pub fn str_rsplit_once(s: &str, p: &str) -> (r: Option<(String, String)>)
    ensures
        match r {
            Some((a, b)) => rsplit_once_spec(s@, p@) == Some((a@, b@)),
            None => rsplit_once_spec(s@, p@) is None,
        },
{
    let cs = chars_of(s);
    let ps = chars_of(p);
    proof {
        lemma_last_occ_bounds(cs@, ps@);
    }
    match last_occurrence(&cs, &ps) {
        Some(i) => {
            let n = cs.len();
            let m = ps.len();
            assert(i + m <= n);
            Some((string_from_range(&cs, 0, i), string_from_range(&cs, i + m, n)))
        },
        None => None,
    }
}

pub fn str_split_once(s: &str, p: &str) -> (r: Option<(String, String)>)
    ensures
        match r {
            Some((a, b)) => split_once_spec(s@, p@) == Some((a@, b@)),
            None => split_once_spec(s@, p@) is None,
        },
{
    let cs = chars_of(s);
    let ps = chars_of(p);
    proof {
        lemma_first_occ_bounds(cs@, ps@);
    }
    match first_occurrence(&cs, &ps) {
        Some(i) => {
            let n = cs.len();
            let m = ps.len();
            assert(i + m <= n);
            Some((string_from_range(&cs, 0, i), string_from_range(&cs, i + m, n)))
        },
        None => None,
    }
}

// ---------------------------------------------------------------------------
// Equality and order
// ---------------------------------------------------------------------------

pub fn chars_eq(a: &Vec<char>, b: &Vec<char>) -> (r: bool)
    ensures
        r == (a@ == b@),
{
    if a.len() != b.len() {
        return false;
    }
    let r = matches_at(a, b, 0);
    assert(a@.subrange(0, a@.len() as int) =~= a@);
    r
}

/// String equality by characters.
pub fn str_eq(a: &str, b: &str) -> (r: bool)
    ensures
        r == (a@ == b@),
{
    let x = chars_of(a);
    let y = chars_of(b);
    chars_eq(&x, &y)
}

/// Lexicographic order on character sequences (the order of `str`'s `Ord`).
pub open spec fn seq_lt(a: Seq<char>, b: Seq<char>) -> bool
    decreases a.len(),
{
    if a.len() == 0 {
        b.len() > 0
    } else if b.len() == 0 {
        false
    } else if a[0] != b[0] {
        a[0] < b[0]
    } else {
        seq_lt(a.drop_first(), b.drop_first())
    }
}

pub open spec fn seq_le(a: Seq<char>, b: Seq<char>) -> bool {
    a == b || seq_lt(a, b)
}

pub proof fn lemma_seq_lt_irreflexive(a: Seq<char>)
    ensures
        !seq_lt(a, a),
    decreases a.len(),
{
    if a.len() > 0 {
        lemma_seq_lt_irreflexive(a.drop_first());
    }
}

pub proof fn lemma_seq_lt_asymmetric(a: Seq<char>, b: Seq<char>)
    requires
        seq_lt(a, b),
    ensures
        !seq_lt(b, a),
    decreases a.len(),
{
    if a.len() > 0 && b.len() > 0 && a[0] == b[0] {
        lemma_seq_lt_asymmetric(a.drop_first(), b.drop_first());
    }
}

pub proof fn lemma_seq_lt_transitive(a: Seq<char>, b: Seq<char>, c: Seq<char>)
    requires
        seq_lt(a, b),
        seq_lt(b, c),
    ensures
        seq_lt(a, c),
    decreases a.len(),
{
    if a.len() > 0 && b.len() > 0 && c.len() > 0 && a[0] == b[0] && b[0] == c[0] {
        lemma_seq_lt_transitive(a.drop_first(), b.drop_first(), c.drop_first());
    }
}

pub proof fn lemma_seq_lt_total(a: Seq<char>, b: Seq<char>)
    ensures
        seq_lt(a, b) || seq_lt(b, a) || a == b,
    decreases a.len(),
{
    if a.len() > 0 && b.len() > 0 {
        if a[0] == b[0] {
            lemma_seq_lt_total(a.drop_first(), b.drop_first());
            if a.drop_first() == b.drop_first() {
                assert(a.drop_first().len() == b.drop_first().len());
                assert(a.len() == b.len());
                assert forall|i: int| 0 <= i < a.len() implies a[i] == b[i] by {
                    if i > 0 {
                        assert(a[i] == a.drop_first()[i - 1]);
                        assert(b[i] == b.drop_first()[i - 1]);
                    }
                }
                assert(a =~= b);
            }
        }
    } else if a.len() == 0 && b.len() == 0 {
        assert(a =~= b);
    }
}

/// Compares `a[i..]` with `b[j..]` lexicographically: `-1`, `0` or `1`.
fn order_from(a: &Vec<char>, b: &Vec<char>, i: usize, j: usize) -> (r: i8)
    requires
        i <= a@.len(),
        j <= b@.len(),
    ensures
        r == 0 <==> a@.subrange(i as int, a@.len() as int) == b@.subrange(
            j as int,
            b@.len() as int,
        ),
        r < 0 <==> seq_lt(
            a@.subrange(i as int, a@.len() as int),
            b@.subrange(j as int, b@.len() as int),
        ),
        r > 0 <==> seq_lt(
            b@.subrange(j as int, b@.len() as int),
            a@.subrange(i as int, a@.len() as int),
        ),
    decreases a@.len() - i,
{
    let ghost x = a@.subrange(i as int, a@.len() as int);
    let ghost y = b@.subrange(j as int, b@.len() as int);
    if i == a.len() {
        if j == b.len() {
            assert(x =~= y);
            proof {
                lemma_seq_lt_irreflexive(x);
            }
            return 0;
        }
        assert(x.len() != y.len());
        return -1;
    }
    if j == b.len() {
        assert(x.len() != y.len());
        return 1;
    }
    let ca = a[i];
    let cb = b[j];
    assert(x[0] == ca && y[0] == cb);
    if ca != cb {
        assert(x != y);
        if ca < cb {
            return -1;
        } else {
            return 1;
        }
    }
    let r = order_from(a, b, i + 1, j + 1);
    proof {
        assert(x.drop_first() =~= a@.subrange(i + 1, a@.len() as int));
        assert(y.drop_first() =~= b@.subrange(j + 1, b@.len() as int));
        if x.drop_first() == y.drop_first() {
            assert forall|k: int| 0 <= k < x.len() implies x[k] == y[k] by {
                if k > 0 {
                    assert(x[k] == x.drop_first()[k - 1]);
                    assert(y[k] == y.drop_first()[k - 1]);
                }
            }
            assert(x =~= y);
        }
        if x == y {
            assert(x.drop_first() =~= y.drop_first());
        }
    }
    r
}

/// Lexicographic comparison of two character vectors: `-1`, `0` or `1`.
pub fn chars_order(a: &Vec<char>, b: &Vec<char>) -> (r: i8)
    ensures
        r == 0 <==> a@ == b@,
        r < 0 <==> seq_lt(a@, b@),
        r > 0 <==> seq_lt(b@, a@),
{
    let r = order_from(a, b, 0, 0);
    assert(a@.subrange(0, a@.len() as int) == a@);
    assert(b@.subrange(0, b@.len() as int) == b@);
    r
}

/// Lexicographic comparison of two strings: `-1`, `0` or `1`.
pub fn str_order(a: &str, b: &str) -> (r: i8)
    ensures
        r == 0 <==> a@ == b@,
        r < 0 <==> seq_lt(a@, b@),
        r > 0 <==> seq_lt(b@, a@),
{
    let x = chars_of(a);
    let y = chars_of(b);
    chars_order(&x, &y)
}


// ---------------------------------------------------------------------------
// Splitting and joining
// ---------------------------------------------------------------------------

/// `i` is the first position of a `sep` character in `s`.
pub open spec fn is_first_in(s: Seq<char>, sep: CharClass, i: int) -> bool {
    &&& 0 <= i < s.len()
    &&& sep.has(s[i])
    &&& forall|j: int| 0 <= j < i ==> !sep.has(#[trigger] s[j])
}

pub open spec fn has_any(s: Seq<char>, sep: CharClass) -> bool {
    exists|i: int| 0 <= i < s.len() && sep.has(s[i])
}

pub proof fn lemma_first_in_exists(s: Seq<char>, sep: CharClass)
    requires
        has_any(s, sep),
    ensures
        exists|i: int| is_first_in(s, sep, i),
    decreases s.len(),
{
    if sep.has(s[0]) {
        assert(is_first_in(s, sep, 0));
    } else {
        let t = s.drop_first();
        let w = choose|i: int| 0 <= i < s.len() && sep.has(s[i]);
        assert(t[w - 1] == s[w]);
        lemma_first_in_exists(t, sep);
        let k = choose|i: int| is_first_in(t, sep, i);
        assert forall|j: int| 0 <= j < k + 1 implies !sep.has(#[trigger] s[j]) by {
            if j > 0 {
                assert(s[j] == t[j - 1]);
            }
        }
        assert(is_first_in(s, sep, k + 1));
    }
}

pub proof fn lemma_first_in_unique(s: Seq<char>, sep: CharClass, i: int, k: int)
    requires
        is_first_in(s, sep, i),
        is_first_in(s, sep, k),
    ensures
        i == k,
{
    if i < k {
        assert(!sep.has(s[i]));
    }
    if k < i {
        assert(!sep.has(s[k]));
    }
}

pub open spec fn first_in(s: Seq<char>, sep: CharClass) -> int {
    choose|i: int| is_first_in(s, sep, i)
}

/// `str::split` with a character predicate: the pieces between separators.
pub open spec fn split_by(s: Seq<char>, sep: CharClass) -> Seq<Seq<char>>
    decreases s.len(),
{
    if has_any(s, sep) {
        let i = first_in(s, sep);
        if 0 <= i < s.len() {
            seq![s.subrange(0, i)] + split_by(s.subrange(i + 1, s.len() as int), sep)
        } else {
            seq![s]
        }
    } else {
        seq![s]
    }
}

/// The pieces of `s` between `sep` characters, as `str::split` yields them.
pub fn split_chars(s: &Vec<char>, sep: CharClass) -> (r: Vec<Vec<char>>)
    ensures
        r@.len() == split_by(s@, sep).len(),
        forall|k: int| 0 <= k < r@.len() ==> #[trigger] r@[k]@ == split_by(s@, sep)[k],
{
    let n = s.len();
    let mut parts: Vec<Vec<char>> = Vec::new();
    let mut piece: Vec<char> = Vec::new();
    let mut start: usize = 0;
    let mut i: usize = 0;
    let ghost mut done: Seq<Seq<char>> = Seq::empty();
    assert(s@.subrange(0, n as int) =~= s@);
    assert(done + split_by(s@, sep) =~= split_by(s@, sep));
    while i < n
        invariant
            n == s@.len(),
            start <= i <= n,
            piece@ == s@.subrange(start as int, i as int),
            forall|j: int| start <= j < i ==> !sep.has(#[trigger] s@[j]),
            parts@.len() == done.len(),
            forall|k: int| 0 <= k < parts@.len() ==> #[trigger] parts@[k]@ == done[k],
            done + split_by(s@.subrange(start as int, n as int), sep) == split_by(s@, sep),
        decreases n - i,
    {
        let c = s[i];
        if sep.contains(c) {
            proof {
                let t = s@.subrange(start as int, n as int);
                let ii = i - start;
                assert(t[ii] == s@[i as int]);
                assert forall|j: int| 0 <= j < ii implies !sep.has(#[trigger] t[j]) by {
                    assert(t[j] == s@[start + j]);
                }
                assert(is_first_in(t, sep, ii));
                assert(has_any(t, sep));
                lemma_first_in_exists(t, sep);
                lemma_first_in_unique(t, sep, first_in(t, sep), ii);
                assert(t.subrange(0, ii) =~= s@.subrange(start as int, i as int));
                assert(t.subrange(ii + 1, t.len() as int) =~= s@.subrange(i + 1, n as int));
                assert(split_by(t, sep) == seq![s@.subrange(start as int, i as int)] + split_by(
                    s@.subrange(i + 1, n as int),
                    sep,
                ));
                assert(done.push(s@.subrange(start as int, i as int)) + split_by(
                    s@.subrange(i + 1, n as int),
                    sep,
                ) =~= done + split_by(t, sep));
                done = done.push(s@.subrange(start as int, i as int));
            }
            parts.push(piece);
            piece = Vec::new();
            start = i + 1;
        } else {
            piece.push(c);
            assert(s@.subrange(start as int, i + 1) == s@.subrange(start as int, i as int).push(c));
        }
        i = i + 1;
    }
    proof {
        let t = s@.subrange(start as int, n as int);
        assert(!has_any(t, sep)) by {
            if has_any(t, sep) {
                let w = choose|j: int| 0 <= j < t.len() && sep.has(t[j]);
                assert(t[w] == s@[start + w]);
            }
        }
        assert(split_by(t, sep) == seq![t]);
        done = done.push(t);
    }
    parts.push(piece);
    assert(done + Seq::<Seq<char>>::empty() =~= done);
    parts
}

/// Joins `parts` with `sep` between consecutive parts (`[T]::join`).
pub open spec fn join(parts: Seq<Seq<char>>, sep: Seq<char>) -> Seq<char>
    decreases parts.len(),
{
    if parts.len() == 0 {
        Seq::empty()
    } else if parts.len() == 1 {
        parts[0]
    } else {
        join(parts.drop_last(), sep) + sep + parts.last()
    }
}

pub fn join_strings(parts: &Vec<String>, sep: &str) -> (r: String)
    ensures
        r@ == join(parts@.map_values(|p: String| p@), sep@),
{
    let ghost views = parts@.map_values(|p: String| p@);
    let mut out = String::new();
    let mut i: usize = 0;
    while i < parts.len()
        invariant
            i <= parts@.len(),
            views == parts@.map_values(|p: String| p@),
            out@ == join(views.subrange(0, i as int), sep@),
        decreases parts.len() - i,
    {
        proof {
            let pre = views.subrange(0, i + 1);
            assert(pre.drop_last() =~= views.subrange(0, i as int));
            assert(pre.last() == parts@[i as int]@);
        }
        if i > 0 {
            push_str(&mut out, sep);
        } else {
            assert(views.subrange(0, 1) =~= seq![parts@[0]@]);
        }
        push_str(&mut out, parts[i].as_str());
        i = i + 1;
    }
    assert(views.subrange(0, parts@.len() as int) =~= views);
    out
}

// ---------------------------------------------------------------------------
// Decimal numbers
// ---------------------------------------------------------------------------

pub open spec fn digit_value(c: char) -> nat {
    ((c as u32) - ('0' as u32)) as nat
}

/// The value of a string of decimal digits.
pub open spec fn digits_value(d: Seq<char>) -> nat
    decreases d.len(),
{
    if d.len() == 0 {
        0
    } else {
        digits_value(d.drop_last()) * 10 + digit_value(d.last())
    }
}

pub open spec fn all_digits(d: Seq<char>) -> bool {
    forall|i: int| 0 <= i < d.len() ==> is_ascii_digit(#[trigger] d[i])
}

/// What `str::parse` gives for an unsigned integer type whose largest value is
/// `max`: an optional `+`, then one or more ASCII digits, of value at most `max`.
pub open spec fn parse_unsigned(s: Seq<char>, max: nat) -> Option<nat> {
    let d = if s.len() > 0 && s[0] == '+' {
        s.drop_first()
    } else {
        s
    };
    if d.len() > 0 && all_digits(d) && digits_value(d) <= max {
        Some(digits_value(d))
    } else {
        None
    }
}

proof fn lemma_digits_value_grows(d: Seq<char>, k: int)
    requires
        0 <= k <= d.len(),
        all_digits(d),
    ensures
        digits_value(d.subrange(0, k)) <= digits_value(d),
    decreases d.len() - k,
{
    if k < d.len() {
        let e = d.subrange(0, k + 1);
        assert(e.drop_last() =~= d.subrange(0, k));
        lemma_digits_value_grows(d, k + 1);
    } else {
        assert(d.subrange(0, k) =~= d);
    }
}

/// `str::parse::<u64>`.
pub fn parse_u64(s: &str) -> (r: Option<u64>)
    ensures
        match r {
            Some(v) => parse_unsigned(s@, u64::MAX as nat) == Some(v as nat),
            None => parse_unsigned(s@, u64::MAX as nat) is None,
        },
{
    let cs = chars_of(s);
    parse_unsigned_chars(&cs, u64::MAX)
}

/// Parses `cs` as `str::parse` does for an unsigned type whose largest value is `max`.
pub fn parse_unsigned_chars(cs: &Vec<char>, max: u64) -> (r: Option<u64>)
    ensures
        match r {
            Some(v) => parse_unsigned(cs@, max as nat) == Some(v as nat),
            None => parse_unsigned(cs@, max as nat) is None,
        },
{
    let n = cs.len();
    let start: usize = if n > 0 && cs[0] == '+' {
        1
    } else {
        0
    };
    let ghost d = cs@.subrange(start as int, n as int);
    assert(start == 1 ==> d =~= cs@.drop_first());
    assert(start == 0 ==> d =~= cs@);
    if start >= n {
        return None;
    }
    let mut v: u64 = 0;
    let mut i: usize = start;
    while i < n
        invariant
            start <= i <= n == cs@.len(),
            d == cs@.subrange(start as int, n as int),
            d == (if cs@.len() > 0 && cs@[0] == '+' { cs@.drop_first() } else { cs@ }),
            d.len() > 0,
            all_digits(cs@.subrange(start as int, i as int)),
            v as nat == digits_value(cs@.subrange(start as int, i as int)),
            v <= max,
        decreases n - i,
    {
        let c = cs[i];
        proof {
            let e = cs@.subrange(start as int, i + 1);
            assert(e.drop_last() =~= cs@.subrange(start as int, i as int));
            assert(e.last() == c);
        }
        if !('0' <= c && c <= '9') {
            proof {
                assert(d[i - start] == c);
                assert(!is_ascii_digit(d[i - start]));
                assert(!all_digits(d));
            }
            return None;
        }
        let dv = (c as u32 - '0' as u32) as u64;
        assert(dv == digit_value(c));
        if dv > max || v > (max - dv) / 10 {
            proof {
                assert(v * 10 + dv > max) by (nonlinear_arith)
                    requires
                        dv > max || v > (max - dv) / 10,
                        dv <= 9,
                ;
                assert(cs@.subrange(start as int, i + 1) =~= d.subrange(0, i + 1 - start));
                if all_digits(d) {
                    lemma_digits_value_grows(d, i + 1 - start);
                }
            }
            return None;
        }
        assert(v * 10 + dv <= max) by (nonlinear_arith)
            requires
                v <= (max - dv) / 10,
                dv <= max,
        ;
        v = v * 10 + dv;
        i = i + 1;
    }
    assert(cs@.subrange(start as int, n as int) == d);
    Some(v)
}

/// The character of the decimal digit `d` (for `d < 10`).
pub open spec fn digit_char(d: nat) -> char {
    if d == 0 {
        '0'
    } else if d == 1 {
        '1'
    } else if d == 2 {
        '2'
    } else if d == 3 {
        '3'
    } else if d == 4 {
        '4'
    } else if d == 5 {
        '5'
    } else if d == 6 {
        '6'
    } else if d == 7 {
        '7'
    } else if d == 8 {
        '8'
    } else {
        '9'
    }
}

pub fn digit_char_exec(d: u64) -> (c: char)
    requires
        d < 10,
    ensures
        c == digit_char(d as nat),
        digit_value(c) == d,
        is_ascii_digit(c),
{
    if d == 0 {
        '0'
    } else if d == 1 {
        '1'
    } else if d == 2 {
        '2'
    } else if d == 3 {
        '3'
    } else if d == 4 {
        '4'
    } else if d == 5 {
        '5'
    } else if d == 6 {
        '6'
    } else if d == 7 {
        '7'
    } else if d == 8 {
        '8'
    } else {
        '9'
    }
}

pub proof fn lemma_digit_char(d: nat)
    requires
        d < 10,
    ensures
        digit_value(digit_char(d)) == d,
        is_ascii_digit(digit_char(d)),
        digit_char(d) != '+',
{
}

/// The decimal digits of `n` (no sign, no leading zeros, `"0"` for zero).
pub open spec fn decimal(n: nat) -> Seq<char>
    decreases n,
{
    if n < 10 {
        seq![digit_char(n)]
    } else {
        decimal(n / 10).push(digit_char(n % 10))
    }
}

/// Appends the decimal form of `n` to `out` (as `format!("{n}")` writes it).
pub fn push_decimal(out: &mut String, n: u64)
    ensures
        final(out)@ == old(out)@ + decimal(n as nat),
    decreases n,
{
    if n < 10 {
        let c = digit_char_exec(n);
        push_char(out, c);
    } else {
        push_decimal(out, n / 10);
        let c = digit_char_exec(n % 10);
        push_char(out, c);
    }
}

/// The decimal form of `n` as a new `String`.
pub fn u64_to_decimal(n: u64) -> (r: String)
    ensures
        r@ == decimal(n as nat),
{
    let mut out = String::new();
    push_decimal(&mut out, n);
    out
}


/// A text that neither starts nor ends with whitespace is its own trim.
pub proof fn lemma_trim_plain(s: Seq<char>)
    requires
        s.len() > 0,
        !is_ws(s[0]),
        !is_ws(s[s.len() - 1]),
    ensures
        trim(s) == s,
{
    assert(is_lead_len(s, CharClass::Whitespace, 0));
    lemma_lead_len_unique(s, CharClass::Whitespace, 0);
    assert(s.subrange(0, s.len() as int) =~= s);
    assert(is_trail_start(s, CharClass::Whitespace, s.len() as int));
    lemma_trail_start_unique(s, CharClass::Whitespace, s.len() as int);
}

proof fn lemma_lead_exists(s: Seq<char>, set: CharClass)
    ensures
        is_lead_len(s, set, lead_len(s, set)),
    decreases s.len(),
{
    if s.len() == 0 || !set.has(s[0]) {
        assert(is_lead_len(s, set, 0));
    } else {
        let t = s.drop_first();
        lemma_lead_exists(t, set);
        let k = lead_len(t, set);
        assert forall|j: int| 0 <= j < k + 1 implies set.has(#[trigger] s[j]) by {
            if j > 0 {
                assert(s[j] == t[j - 1]);
            }
        }
        if k + 1 < s.len() {
            assert(s[k + 1] == t[k]);
        }
        assert(is_lead_len(s, set, k + 1));
    }
}

proof fn lemma_trail_exists(s: Seq<char>, set: CharClass)
    ensures
        is_trail_start(s, set, trail_start(s, set)),
    decreases s.len(),
{
    if s.len() == 0 || !set.has(s[s.len() - 1]) {
        assert(is_trail_start(s, set, s.len() as int));
    } else {
        let t = s.drop_last();
        lemma_trail_exists(t, set);
        let k = trail_start(t, set);
        assert forall|j: int| k <= j < s.len() implies set.has(#[trigger] s[j]) by {
            if j < s.len() - 1 {
                assert(s[j] == t[j]);
            }
        }
        if k > 0 {
            assert(s[k - 1] == t[k - 1]);
        }
        assert(is_trail_start(s, set, k));
    }
}

/// Trimming twice is trimming once.
pub proof fn lemma_trim_idempotent(s: Seq<char>)
    ensures
        trim(trim(s)) == trim(s),
{
    let set = CharClass::Whitespace;
    lemma_lead_exists(s, set);
    let t1 = trim_start_by(s, set);
    lemma_trail_exists(t1, set);
    let t = trim(s);
    if t.len() > 0 {
        assert(t[0] == t1[0]);
        assert(t[t.len() - 1] == t1[t.len() - 1]);
        lemma_trim_plain(t);
    } else {
        assert(is_lead_len(t, set, 0));
        lemma_lead_len_unique(t, set, 0);
        let u = trim_start_by(t, set);
        assert(u.len() == 0);
        assert(is_trail_start(u, set, 0));
        lemma_trail_start_unique(u, set, 0);
        assert(trim(t) =~= t);
    }
}

/// No piece of a split holds a separator.
pub proof fn lemma_split_pieces_clean(s: Seq<char>, sep: CharClass)
    ensures
        forall|i: int, j: int|
            0 <= i < split_by(s, sep).len() && 0 <= j < split_by(s, sep)[i].len() ==> !sep.has(
                #[trigger] split_by(s, sep)[i][j],
            ),
    decreases s.len(),
{
    if has_any(s, sep) {
        lemma_first_in_exists(s, sep);
        let i0 = first_in(s, sep);
        let rest = s.subrange(i0 + 1, s.len() as int);
        lemma_split_pieces_clean(rest, sep);
        let parts = split_by(s, sep);
        assert(parts == seq![s.subrange(0, i0)] + split_by(rest, sep));
        assert forall|i: int, j: int| 0 <= i < parts.len() && 0 <= j < parts[i].len() implies !sep.has(
            #[trigger] parts[i][j],
        ) by {
            if i == 0 {
                assert(parts[0][j] == s[j]);
            } else {
                assert(parts[i] == split_by(rest, sep)[i - 1]);
            }
        }
    } else {
        assert forall|i: int, j: int|
            0 <= i < split_by(s, sep).len() && 0 <= j < split_by(s, sep)[i].len() implies !sep.has(
            #[trigger] split_by(s, sep)[i][j],
        ) by {
            assert(split_by(s, sep)[i] == s);
        }
    }
}

/// The characters of a trimmed text are those of the text, in place after
/// its leading whitespace.
pub proof fn lemma_trim_chars(s: Seq<char>)
    ensures
        forall|j: int|
            0 <= j < trim(s).len() ==> 0 <= lead_len(s, CharClass::Whitespace) + j < s.len() && #[trigger] trim(
                s,
            )[j] == s[lead_len(s, CharClass::Whitespace) + j],
{
    let set = CharClass::Whitespace;
    lemma_lead_exists(s, set);
    let t1 = trim_start_by(s, set);
    lemma_trail_exists(t1, set);
}

/// A text that is its own trim, when not empty, neither starts nor ends
/// with whitespace.
pub proof fn lemma_trimmed_ends(x: Seq<char>)
    requires
        trim(x) == x,
        x.len() > 0,
    ensures
        !is_ws(x[0]),
        !is_ws(x[x.len() - 1]),
{
    let set = CharClass::Whitespace;
    lemma_lead_exists(x, set);
    let l = lead_len(x, set);
    let t1 = trim_start_by(x, set);
    lemma_trail_exists(t1, set);
    let t = trail_start(t1, set);
    assert(trim(x).len() == t);
    assert(t <= x.len() - l);
    assert(l == 0);
    assert(t1 =~= x);
    assert(x[0] == trim(x)[0]);
    assert(t == x.len());
}

/// Joining parts, the first part comes first.
pub proof fn lemma_join_front(a: Seq<char>, rest: Seq<Seq<char>>, sep: Seq<char>)
    requires
        rest.len() > 0,
    ensures
        join(seq![a] + rest, sep) == a + sep + join(rest, sep),
    decreases rest.len(),
{
    let s = seq![a] + rest;
    if rest.len() == 1 {
        assert(s.drop_last() =~= seq![a]);
        assert(join(s.drop_last(), sep) == a);
        assert(s.last() == rest[0]);
        assert(join(rest, sep) == rest[0]);
        assert(join(s, sep) == join(s.drop_last(), sep) + sep + s.last());
    } else {
        assert(s.drop_last() =~= seq![a] + rest.drop_last());
        lemma_join_front(a, rest.drop_last(), sep);
        assert(s.last() == rest.last());
        assert(join(s, sep) == join(s.drop_last(), sep) + sep + s.last());
        assert(join(rest, sep) == join(rest.drop_last(), sep) + sep + rest.last());
        assert(join(s, sep) =~= a + sep + join(rest, sep));
    }
}

/// Splitting at the first separator after a separator-free part.
pub proof fn lemma_split_after(a: Seq<char>, b: Seq<char>, c: char)
    requires
        forall|j: int| 0 <= j < a.len() ==> a[j] != c,
    ensures
        split_by(a + seq![c] + b, CharClass::One(c)) == seq![a] + split_by(b, CharClass::One(c)),
{
    let s = a + seq![c] + b;
    let sep = CharClass::One(c);
    assert(s[a.len() as int] == c);
    assert(has_any(s, sep));
    assert forall|j: int| 0 <= j < a.len() implies !sep.has(#[trigger] s[j]) by {
        assert(s[j] == a[j]);
    }
    assert(is_first_in(s, sep, a.len() as int));
    lemma_first_in_exists(s, sep);
    lemma_first_in_unique(s, sep, first_in(s, sep), a.len() as int);
    assert(s.subrange(0, a.len() as int) =~= a);
    assert(s.subrange(a.len() as int + 1, s.len() as int) =~= b);
}

/// A text without the separator splits into itself.
pub proof fn lemma_split_none(a: Seq<char>, c: char)
    requires
        forall|j: int| 0 <= j < a.len() ==> a[j] != c,
    ensures
        split_by(a, CharClass::One(c)) == seq![a],
{
    assert(!has_any(a, CharClass::One(c)));
}

/// Splitting the join of separator-free parts gives the parts back.
pub proof fn lemma_split_join(parts: Seq<Seq<char>>, c: char)
    requires
        parts.len() > 0,
        forall|i: int, j: int| 0 <= i < parts.len() && 0 <= j < parts[i].len() ==> #[trigger] parts[i][j] != c,
    ensures
        split_by(join(parts, seq![c]), CharClass::One(c)) == parts,
    decreases parts.len(),
{
    let a = parts[0];
    assert forall|j: int| 0 <= j < a.len() implies a[j] != c by {
        assert(parts[0][j] != c);
    }
    if parts.len() == 1 {
        lemma_split_none(a, c);
        assert(seq![a] =~= parts);
    } else {
        let rest = parts.drop_first();
        assert(seq![a] + rest =~= parts);
        assert forall|i: int, j: int| 0 <= i < rest.len() && 0 <= j < rest[i].len() implies #[trigger] rest[i][j]
            != c by {
            assert(rest[i] == parts[i + 1]);
        }
        lemma_join_front(a, rest, seq![c]);
        lemma_split_join(rest, c);
        assert(a + seq![c] + join(rest, seq![c]) == join(parts, seq![c]));
        lemma_split_after(a, join(rest, seq![c]), c);
    }
}

/// The first and last characters of a join of non-empty parts.
pub proof fn lemma_join_ends(parts: Seq<Seq<char>>, sep: Seq<char>)
    requires
        parts.len() > 0,
        parts[0].len() > 0,
        parts.last().len() > 0,
    ensures
        join(parts, sep).len() > 0,
        join(parts, sep)[0] == parts[0][0],
        join(parts, sep)[join(parts, sep).len() - 1] == parts.last()[parts.last().len() - 1],
    decreases parts.len(),
{
    if parts.len() > 1 {
        lemma_join_first(parts.drop_last(), sep);
    }
}

proof fn lemma_join_first(parts: Seq<Seq<char>>, sep: Seq<char>)
    requires
        parts.len() > 0,
        parts[0].len() > 0,
    ensures
        join(parts, sep).len() > 0,
        join(parts, sep)[0] == parts[0][0],
    decreases parts.len(),
{
    if parts.len() > 1 {
        lemma_join_first(parts.drop_last(), sep);
    }
}
} // verus!
