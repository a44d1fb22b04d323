//! Character-level helpers shared by the identity, parsing and formatting code.
//!
//! Strings are handled as sequences of `char` (the view of `str` and
//! `String`). Every helper here is specified over `Seq<char>`.

use vstd::prelude::*;

verus! {

/// Unicode `White_Space` (the set `char::is_whitespace` accepts).
pub open spec fn is_ws(c: char) -> bool {
    ||| ('\u{9}' <= c && c <= '\u{d}')
    ||| c == ' '
    ||| c == '\u{85}'
    ||| c == '\u{a0}'
    ||| c == '\u{1680}'
    ||| ('\u{2000}' <= c && c <= '\u{200a}')
    ||| c == '\u{2028}'
    ||| c == '\u{2029}'
    ||| c == '\u{202f}'
    ||| c == '\u{205f}'
    ||| c == '\u{3000}'
}

/// Character classes that the trimming helpers strip.
#[derive(Clone, Copy, Debug, PartialEq, Eq)]
pub enum CharClass {
    /// Unicode whitespace.
    Whitespace,
    /// `/` only.
    Slash,
    /// `/` or `\`.
    PathSeparator,
    /// `"` or `'`.
    Quote,
}

pub open spec fn in_class(cls: CharClass, c: char) -> bool {
    match cls {
        CharClass::Whitespace => is_ws(c),
        CharClass::Slash => c == '/',
        CharClass::PathSeparator => c == '/' || c == '\\',
        CharClass::Quote => c == '"' || c == '\'',
    }
}

/// `s` without its leading characters of class `cls`.
pub open spec fn strip_leading(s: Seq<char>, cls: CharClass) -> Seq<char>
    decreases s.len(),
{
    if s.len() > 0 && in_class(cls, s[0]) {
        strip_leading(s.drop_first(), cls)
    } else {
        s
    }
}

/// `s` without its trailing characters of class `cls`.
pub open spec fn strip_trailing(s: Seq<char>, cls: CharClass) -> Seq<char>
    decreases s.len(),
{
    if s.len() > 0 && in_class(cls, s.last()) {
        strip_trailing(s.drop_last(), cls)
    } else {
        s
    }
}

/// `s` without leading and trailing characters of class `cls`.
pub open spec fn strip_both(s: Seq<char>, cls: CharClass) -> Seq<char> {
    strip_trailing(strip_leading(s, cls), cls)
}

/// `str::trim`.
pub open spec fn trim(s: Seq<char>) -> Seq<char> {
    strip_both(s, CharClass::Whitespace)
}

pub open spec fn ascii_lower_char(c: char) -> char {
    if 'A' <= c && c <= 'Z' {
        ((c as u32) + 32) as char
    } else {
        c
    }
}

/// `str::to_ascii_lowercase`.
pub open spec fn ascii_lower(s: Seq<char>) -> Seq<char> {
    Seq::new(s.len(), |i: int| ascii_lower_char(s[i]))
}

pub open spec fn is_ascii_digit(c: char) -> bool {
    '0' <= c && c <= '9'
}

pub open spec fn all_ascii_digits(s: Seq<char>) -> bool {
    forall|i: int| 0 <= i < s.len() ==> is_ascii_digit(#[trigger] s[i])
}

/// Index of the first `c` in `s` at or after `from`.
pub open spec fn find_char_from(s: Seq<char>, c: char, from: int) -> Option<int>
    decreases s.len() - from,
{
    if from < 0 || from >= s.len() {
        None
    } else if s[from] == c {
        Some(from)
    } else {
        find_char_from(s, c, from + 1)
    }
}

/// `str::find` for a single character.
pub open spec fn find_char(s: Seq<char>, c: char) -> Option<int> {
    find_char_from(s, c, 0)
}

/// Index of the last `c` in `s` strictly before `end`.
pub open spec fn rfind_char_before(s: Seq<char>, c: char, end: int) -> Option<int>
    decreases end,
{
    if end <= 0 || end > s.len() {
        None
    } else if s[end - 1] == c {
        Some(end - 1)
    } else {
        rfind_char_before(s, c, end - 1)
    }
}

/// `str::rfind` for a single character.
pub open spec fn rfind_char(s: Seq<char>, c: char) -> Option<int> {
    rfind_char_before(s, c, s.len() as int)
}

/// `pat` occurs in `s` starting at `i`.
pub open spec fn occurs_at(s: Seq<char>, pat: Seq<char>, i: int) -> bool {
    0 <= i && i + pat.len() <= s.len() && s.subrange(i, i + pat.len()) == pat
}

/// Index of the first occurrence of `pat` in `s` at or after `from`.
pub open spec fn find_seq_from(s: Seq<char>, pat: Seq<char>, from: int) -> Option<int>
    decreases s.len() + 1 - from,
{
    if from < 0 || from + pat.len() > s.len() {
        None
    } else if occurs_at(s, pat, from) {
        Some(from)
    } else {
        find_seq_from(s, pat, from + 1)
    }
}

/// `str::find` for a substring.
pub open spec fn find_seq(s: Seq<char>, pat: Seq<char>) -> Option<int> {
    find_seq_from(s, pat, 0)
}

/// `str::contains` for a substring.
pub open spec fn contains_seq(s: Seq<char>, pat: Seq<char>) -> bool {
    exists|i: int| occurs_at(s, pat, i)
}

/// Lowercase hexadecimal digit of `n` (`n < 16`).
pub open spec fn hex_digit(n: int) -> char {
    if n < 10 {
        (('0' as int) + n) as char
    } else {
        (('a' as int) + n - 10) as char
    }
}

/// Two lowercase hex digits of a byte (`{:02x}`).
pub open spec fn hex_byte(b: u8) -> Seq<char> {
    seq![hex_digit(b as int / 16), hex_digit(b as int % 16)]
}

/// Lowercase hex encoding of a byte string, two digits per byte.
pub open spec fn lower_hex(bytes: Seq<u8>) -> Seq<char>
    decreases bytes.len(),
{
    if bytes.len() == 0 {
        Seq::empty()
    } else {
        lower_hex(bytes.drop_last()) + hex_byte(bytes.last())
    }
}

/// The last `count` hex digits of `v`, most significant first.
pub open spec fn hex_digits(v: nat, count: nat) -> Seq<char>
    decreases count,
{
    if count == 0 {
        Seq::empty()
    } else {
        hex_digits(v / 16, (count - 1) as nat).push(hex_digit((v % 16) as int))
    }
}

/// `format!("{:016x}", v)`.
pub open spec fn hex_u64(v: u64) -> Seq<char> {
    hex_digits(v as nat, 16)
}

/// Decimal digits of `n` (`format!("{}", n)` for unsigned integers).
pub open spec fn decimal(n: nat) -> Seq<char>
    decreases n,
{
    if n < 10 {
        seq![(('0' as int) + n) as char]
    } else {
        decimal(n / 10).push((('0' as int) + (n % 10)) as char)
    }
}

pub open spec fn is_hex_lower_char(c: char) -> bool {
    ('0' <= c && c <= '9') || ('a' <= c && c <= 'f')
}

/// Appends one character to a `String` (`String::push`).
#[verifier::external_body]
pub(crate) fn push_char(s: &mut String, c: char)
    ensures
        final(s)@ == old(s)@.push(c),
{
    s.push(c);
}

/// The characters of `s`, in order.
pub fn chars_of(s: &str) -> (res: Vec<char>)
    ensures
        res@ == s@,
{
    broadcast use vstd::string::group_string_axioms;

    let mut res: Vec<char> = Vec::new();
    for c in it: s.chars()
        invariant
            it.seq() == s@,
            res@ == s@.take(it.index() as int),
    {
        res.push(c);
    }
    assert(res@ =~= s@);
    res
}

/// Appends the characters of `v` to `s`.
pub fn push_chars(s: &mut String, v: &[char])
    ensures
        final(s)@ == old(s)@ + v@,
{
    let mut i: usize = 0;
    while i < v.len()
        invariant
            i <= v.len(),
            s@ == old(s)@ + v@.take(i as int),
        decreases v.len() - i,
    {
        push_char(s, v[i]);
        assert(v@.take(i as int).push(v@[i as int]) =~= v@.take(i + 1));
        i = i + 1;
    }
    assert(v@.take(v.len() as int) =~= v@);
}

/// A `String` holding the characters of `v`.
pub fn string_of(v: &[char]) -> (res: String)
    ensures
        res@ == v@,
{
    let mut s = String::new();
    push_chars(&mut s, v);
    s
}

/// A copy of `v[lo..hi]`.
pub fn slice_of(v: &[char], lo: usize, hi: usize) -> (res: Vec<char>)
    requires
        lo <= hi <= v.len(),
    ensures
        res@ == v@.subrange(lo as int, hi as int),
{
    let mut res: Vec<char> = Vec::new();
    let mut i: usize = lo;
    while i < hi
        invariant
            lo <= i <= hi <= v.len(),
            res@ == v@.subrange(lo as int, i as int),
        decreases hi - i,
    {
        res.push(v[i]);
        assert(v@.subrange(lo as int, i as int).push(v@[i as int]) =~= v@.subrange(
            lo as int,
            i + 1,
        ));
        i = i + 1;
    }
    res
}

pub fn in_class_exec(cls: CharClass, c: char) -> (res: bool)
    ensures
        res == in_class(cls, c),
{
    match cls {
        CharClass::Whitespace => {
            ('\u{9}' <= c && c <= '\u{d}') || c == ' ' || c == '\u{85}' || c == '\u{a0}' || c
                == '\u{1680}' || ('\u{2000}' <= c && c <= '\u{200a}') || c == '\u{2028}' || c
                == '\u{2029}' || c == '\u{202f}' || c == '\u{205f}' || c == '\u{3000}'
        },
        CharClass::Slash => c == '/',
        CharClass::PathSeparator => c == '/' || c == '\\',
        CharClass::Quote => c == '"' || c == '\'',
    }
}

/// Number of leading characters of class `cls` in `v`.
pub fn leading_end(v: &[char], cls: CharClass) -> (i: usize)
    ensures
        i <= v.len(),
        strip_leading(v@, cls) == v@.skip(i as int),
{
    let mut i: usize = 0;
    assert(v@.skip(0) =~= v@);
    while i < v.len() && in_class_exec(cls, v[i])
        invariant
            i <= v.len(),
            strip_leading(v@, cls) == strip_leading(v@.skip(i as int), cls),
        decreases v.len() - i,
    {
        assert(v@.skip(i as int).drop_first() =~= v@.skip(i + 1));
        i = i + 1;
    }
    i
}

/// Length of `v` without its trailing characters of class `cls`.
pub fn trailing_start(v: &[char], cls: CharClass) -> (j: usize)
    ensures
        j <= v.len(),
        strip_trailing(v@, cls) == v@.take(j as int),
{
    let mut j: usize = v.len();
    assert(v@.take(j as int) =~= v@);
    while j > 0 && in_class_exec(cls, v[j - 1])
        invariant
            j <= v.len(),
            strip_trailing(v@, cls) == strip_trailing(v@.take(j as int), cls),
        decreases j,
    {
        assert(v@.take(j as int).drop_last() =~= v@.take(j - 1));
        j = j - 1;
    }
    j
}

/// `v` without leading and trailing characters of class `cls`.
pub fn strip_both_exec(v: &[char], cls: CharClass) -> (res: Vec<char>)
    ensures
        res@ == strip_both(v@, cls),
{
    let i = leading_end(v, cls);
    let w = slice_of(v, i, v.len());
    assert(w@ =~= v@.skip(i as int));
    let j = trailing_start(w.as_slice(), cls);
    slice_of(w.as_slice(), 0, j)
}

/// `v` without its trailing characters of class `cls`.
pub fn strip_trailing_exec(v: &[char], cls: CharClass) -> (res: Vec<char>)
    ensures
        res@ == strip_trailing(v@, cls),
{
    let j = trailing_start(v, cls);
    slice_of(v, 0, j)
}

/// `str::trim` over characters.
pub fn trim_chars(v: &[char]) -> (res: Vec<char>)
    ensures
        res@ == trim(v@),
{
    strip_both_exec(v, CharClass::Whitespace)
}

pub fn ascii_lower_char_exec(c: char) -> (res: char)
    ensures
        res == ascii_lower_char(c),
{
    if 'A' <= c && c <= 'Z' {
        let b: u8 = (c as u32) as u8;
        ((b + 32) as u8) as char
    } else {
        c
    }
}

/// `to_ascii_lowercase` over characters.
pub fn ascii_lower_exec(v: &[char]) -> (res: Vec<char>)
    ensures
        res@ == ascii_lower(v@),
{
    let mut res: Vec<char> = Vec::new();
    let mut i: usize = 0;
    while i < v.len()
        invariant
            i <= v.len(),
            res@ == ascii_lower(v@.take(i as int)),
        decreases v.len() - i,
    {
        res.push(ascii_lower_char_exec(v[i]));
        assert(ascii_lower(v@.take(i + 1)) =~= ascii_lower(v@.take(i as int)).push(
            ascii_lower_char(v@[i as int]),
        ));
        i = i + 1;
    }
    assert(v@.take(v.len() as int) =~= v@);
    res
}


/// `a == b` over characters.
pub fn chars_eq(a: &[char], b: &[char]) -> (res: bool)
    ensures
        res == (a@ == b@),
{
    if a.len() != b.len() {
        return false;
    }
    let mut i: usize = 0;
    while i < a.len()
        invariant
            a.len() == b.len(),
            i <= a.len(),
            forall|k: int| 0 <= k < i ==> a@[k] == b@[k],
        decreases a.len() - i,
    {
        if a[i] != b[i] {
            return false;
        }
        i = i + 1;
    }
    assert(a@ =~= b@);
    true
}

/// Whether `c` occurs in `v`.
pub fn contains_char(v: &[char], c: char) -> (res: bool)
    ensures
        res == v@.contains(c),
{
    let mut i: usize = 0;
    while i < v.len()
        invariant
            i <= v.len(),
            forall|k: int| 0 <= k < i ==> v@[k] != c,
        decreases v.len() - i,
    {
        if v[i] == c {
            return true;
        }
        i = i + 1;
    }
    false
}

/// `str::find` for a single character.
pub fn find_char_exec(v: &[char], c: char) -> (res: Option<usize>)
    ensures
        match res {
            Some(i) => i < v.len() && find_char(v@, c) == Some(i as int),
            None => find_char(v@, c) is None,
        },
{
    let mut i: usize = 0;
    while i < v.len()
        invariant
            i <= v.len(),
            find_char(v@, c) == find_char_from(v@, c, i as int),
        decreases v.len() - i,
    {
        if v[i] == c {
            return Some(i);
        }
        i = i + 1;
    }
    None
}

/// `str::rfind` for a single character.
pub fn rfind_char_exec(v: &[char], c: char) -> (res: Option<usize>)
    ensures
        match res {
            Some(i) => i < v.len() && rfind_char(v@, c) == Some(i as int),
            None => rfind_char(v@, c) is None,
        },
{
    let mut j: usize = v.len();
    while j > 0
        invariant
            j <= v.len(),
            rfind_char(v@, c) == rfind_char_before(v@, c, j as int),
        decreases j,
    {
        if v[j - 1] == c {
            return Some(j - 1);
        }
        j = j - 1;
    }
    None
}

/// Whether `pat` occurs in `v` at `i`.
pub fn occurs_at_exec(v: &[char], pat: &[char], i: usize) -> (res: bool)
    ensures
        res == occurs_at(v@, pat@, i as int),
{
    if i > v.len() || pat.len() > v.len() - i {
        return false;
    }
    let mut k: usize = 0;
    while k < pat.len()
        invariant
            i + pat.len() <= v.len(),
            k <= pat.len(),
            forall|m: int| 0 <= m < k ==> v@[i + m] == pat@[m],
        decreases pat.len() - k,
    {
        if v[i + k] != pat[k] {
            assert(v@.subrange(i as int, i + pat.len())[k as int] != pat@[k as int]);
            return false;
        }
        k = k + 1;
    }
    assert(v@.subrange(i as int, i + pat.len()) =~= pat@);
    true
}

/// `str::find` for a substring.
pub fn find_seq_exec(v: &[char], pat: &[char]) -> (res: Option<usize>)
    ensures
        match res {
            Some(i) => find_seq(v@, pat@) == Some(i as int),
            None => find_seq(v@, pat@) is None,
        },
{
    if pat.len() > v.len() {
        return None;
    }
    let last = v.len() - pat.len();
    let mut i: usize = 0;
    loop
        invariant
            last == v.len() - pat.len(),
            i <= last,
            find_seq(v@, pat@) == find_seq_from(v@, pat@, i as int),
        decreases last - i,
    {
        if occurs_at_exec(v, pat, i) {
            return Some(i);
        }
        if i == last {
            assert(find_seq_from(v@, pat@, i + 1) is None);
            return None;
        }
        i = i + 1;
    }
}

/// Whether `pat` occurs anywhere in `v`.
pub fn contains_seq_exec(v: &[char], pat: &[char]) -> (res: bool)
    ensures
        res == contains_seq(v@, pat@),
{
    match find_seq_exec(v, pat) {
        Some(i) => {
            proof {
                lemma_find_seq_from_some(v@, pat@, 0);
            }
            true
        },
        None => {
            proof {
                lemma_find_seq_from_none(v@, pat@, 0);
            }
            false
        },
    }
}

pub proof fn lemma_find_seq_from_some(s: Seq<char>, pat: Seq<char>, from: int)
    ensures
        find_seq_from(s, pat, from) matches Some(i) ==> occurs_at(s, pat, i),
    decreases s.len() + 1 - from,
{
    if from >= 0 && from + pat.len() <= s.len() && !occurs_at(s, pat, from) {
        lemma_find_seq_from_some(s, pat, from + 1);
    }
}

pub proof fn lemma_find_seq_from_none(s: Seq<char>, pat: Seq<char>, from: int)
    requires
        from >= 0,
    ensures
        find_seq_from(s, pat, from) is None ==> forall|i: int| i >= from ==> !occurs_at(s, pat, i),
    decreases s.len() + 1 - from,
{
    if from + pat.len() <= s.len() && !occurs_at(s, pat, from) {
        lemma_find_seq_from_none(s, pat, from + 1);
    }
}

/// The lowercase hex digit for `n < 16`.
pub fn hex_digit_exec(n: u64) -> (c: char)
    requires
        n < 16,
    ensures
        c == hex_digit(n as int),
        is_hex_lower_char(c),
{
    if n < 10 {
        ((48 + n) as u8) as char
    } else {
        ((97 + n - 10) as u8) as char
    }
}

/// Appends the last `count` hex digits of `v`, most significant first.
pub fn push_hex_digits(s: &mut String, v: u64, count: usize)
    ensures
        final(s)@ == old(s)@ + hex_digits(v as nat, count as nat),
    decreases count,
{
    if count > 0 {
        push_hex_digits(s, v / 16, count - 1);
        push_char(s, hex_digit_exec(v % 16));
    }
}

/// `format!("{:016x}", v)`.
pub fn hex_u64_exec(v: u64) -> (s: String)
    ensures
        s@ == hex_u64(v),
{
    let mut s = String::new();
    push_hex_digits(&mut s, v, 16);
    s
}

/// Lowercase hex encoding of `bytes`, two digits per byte.
pub fn lower_hex_exec(bytes: &[u8]) -> (s: String)
    ensures
        s@ == lower_hex(bytes@),
{
    let mut s = String::new();
    let mut i: usize = 0;
    while i < bytes.len()
        invariant
            i <= bytes.len(),
            s@ == lower_hex(bytes@.take(i as int)),
        decreases bytes.len() - i,
    {
        let b = bytes[i];
        push_char(&mut s, hex_digit_exec((b / 16) as u64));
        push_char(&mut s, hex_digit_exec((b % 16) as u64));
        assert(bytes@.take(i + 1).drop_last() =~= bytes@.take(i as int));
        assert(s@ =~= lower_hex(bytes@.take(i + 1)));
        i = i + 1;
    }
    assert(bytes@.take(bytes.len() as int) =~= bytes@);
    s
}

/// Appends the decimal digits of `n`.
pub fn push_decimal(s: &mut String, n: u64)
    ensures
        final(s)@ == old(s)@ + decimal(n as nat),
    decreases n,
{
    if n < 10 {
        push_char(s, ((48 + n) as u8) as char);
    } else {
        push_decimal(s, n / 10);
        push_char(s, ((48 + n % 10) as u8) as char);
    }
}

/// `find_char_from` finds the first `c` at or after `from`.
pub proof fn lemma_find_char_from(s: Seq<char>, c: char, from: int)
    requires
        0 <= from,
    ensures
        find_char_from(s, c, from) matches Some(i) ==> (from <= i < s.len() && s[i] == c
            && forall|j: int| from <= j < i ==> s[j] != c),
        find_char_from(s, c, from) is None ==> forall|j: int| from <= j < s.len() ==> s[j] != c,
    decreases s.len() - from,
{
    if from < s.len() && s[from] != c {
        lemma_find_char_from(s, c, from + 1);
    }
}

/// Whether `c` separates path components on a platform whose main
/// separator is `sep` (`/` always does).
pub open spec fn is_separator(c: char, sep: char) -> bool {
    c == '/' || c == sep
}

/// `Path::join` with a relative component: a separator is added between a
/// non-empty base and the component unless the base already ends with one.
pub open spec fn join_spec(base: Seq<char>, rel: Seq<char>, sep: char) -> Seq<char> {
    if base.len() > 0 && !is_separator(base.last(), sep) {
        base + seq![sep] + rel
    } else {
        base + rel
    }
}

/// `rel` joined onto `base` with separator `sep` (`join_spec`).
pub fn join_with(base: &[char], rel: &str, sep: char) -> (res: String)
    ensures
        res@ == join_spec(base@, rel@, sep),
{
    let mut s = String::new();
    push_chars(&mut s, base);
    if base.len() > 0 && !(base[base.len() - 1] == '/' || base[base.len() - 1] == sep) {
        push_char(&mut s, sep);
    }
    s.append(rel);
    s
}

} // verus!
