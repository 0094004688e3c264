//! Character-level text primitives: the model of the `str` operations that
//! the scoring rules use (whitespace, trimming, searching, line splitting,
//! number rendering), each as a spec function over `Seq<char>` and an
//! executable function proved against it.
use vstd::prelude::*;

verus! {

/* ---------- characters ---------- */

/// Unicode `White_Space` property, the set that `char::is_whitespace` tests.
pub open spec fn is_ws(c: char) -> bool {
    ||| ('\t' <= c && c <= '\r')
    ||| c == ' '
    ||| c == '\u{85}'
    ||| c == '\u{a0}'
    ||| c == '\u{1680}'
    ||| ('\u{2000}' <= c && c <= '\u{200a}')
    ||| c == '\u{2028}'
    ||| c == '\u{2029}'
    ||| c == '\u{202f}'
    ||| c == '\u{205f}'
    ||| c == '\u{3000}'
}

pub fn char_is_whitespace(c: char) -> (b: bool)
    ensures
        b == is_ws(c),
{
    ('\t' <= c && c <= '\r') || c == ' ' || c == '\u{85}' || c == '\u{a0}' || c == '\u{1680}'
        || ('\u{2000}' <= c && c <= '\u{200a}') || c == '\u{2028}' || c == '\u{2029}'
        || c == '\u{202f}' || c == '\u{205f}' || c == '\u{3000}'
}

/// ASCII lower-casing of one character (`char::to_ascii_lowercase`).
pub open spec fn lower_char(c: char) -> char {
    if 'A' <= c && c <= 'Z' {
        ((c as int) + 32) as char
    } else {
        c
    }
}

pub fn char_to_ascii_lower(c: char) -> (r: char)
    ensures
        r == lower_char(c),
{
    if 'A' <= c && c <= 'Z' {
        ((c as u8) + 32) as char
    } else {
        c
    }
}

/// ASCII lower-casing of a text (`str::to_ascii_lowercase`).
pub open spec fn lower(s: Seq<char>) -> Seq<char> {
    s.map_values(|c: char| lower_char(c))
}

pub fn to_ascii_lower(s: &[char]) -> (r: Vec<char>)
    ensures
        r@ == lower(s@),
{
    let mut r: Vec<char> = Vec::new();
    let mut i: usize = 0;
    while i < s.len()
        invariant
            i <= s@.len(),
            r@ == lower(s@.take(i as int)),
        decreases s@.len() - i,
    {
        r.push(char_to_ascii_lower(s[i]));
        i = i + 1;
        assert(lower(s@.take(i as int)) =~= lower(s@.take(i - 1)).push(lower_char(s@[i - 1])));
    }
    assert(s@.take(s@.len() as int) =~= s@);
    r
}

/// `char::is_ascii_alphabetic`.
pub open spec fn is_ascii_alpha(c: char) -> bool {
    ('A' <= c && c <= 'Z') || ('a' <= c && c <= 'z')
}

/// Unicode `Alphabetic` property, as `char::is_alphabetic` tests it.
pub uninterp spec fn unicode_alphabetic(c: char) -> bool;

/// Unicode `Alphabetic` or `Numeric`, as `char::is_alphanumeric` tests it.
pub uninterp spec fn unicode_alphanumeric(c: char) -> bool;

/// Calls `char::is_alphabetic`; its result is named `unicode_alphabetic`.
#[verifier::external_body]
pub(crate) fn char_is_alphabetic(c: char) -> (b: bool)
    ensures
        b == unicode_alphabetic(c),
{
    c.is_alphabetic()
}

/// Calls `char::is_alphanumeric`; its result is named `unicode_alphanumeric`.
#[verifier::external_body]
pub(crate) fn char_is_alphanumeric(c: char) -> (b: bool)
    ensures
        b == unicode_alphanumeric(c),
{
    c.is_alphanumeric()
}

/// Number of bytes of a character in UTF-8 (`char::len_utf8`).
pub open spec fn utf8_len(c: char) -> nat {
    if (c as u32) < 0x80 {
        1
    } else if (c as u32) < 0x800 {
        2
    } else if (c as u32) < 0x10000 {
        3
    } else {
        4
    }
}

/// Number of UTF-8 bytes of a text.
pub open spec fn byte_len(s: Seq<char>) -> nat
    decreases s.len(),
{
    if s.len() == 0 {
        0
    } else {
        byte_len(s.drop_last()) + utf8_len(s.last())
    }
}

pub fn char_utf8_len(c: char) -> (n: usize)
    ensures
        n == utf8_len(c),
{
    let v = c as u32;
    if v < 0x80 {
        1
    } else if v < 0x800 {
        2
    } else if v < 0x10000 {
        3
    } else {
        4
    }
}

/* ---------- building text ---------- */

/// The characters of a string slice, in order.
pub fn to_chars(s: &str) -> (out: Vec<char>)
    ensures
        out@ == s@,
{
    let mut out: Vec<char> = Vec::new();
    for c in it: s.chars()
        invariant
            out@ == it.seq().take(it.index()),
    {
        out.push(c);
    }
    out
}

/// Builds an owned string from characters; calls `FromIterator<&char>` for
/// `String`, which appends the characters in order.
#[verifier::external_body]
pub(crate) fn string_from_chars(v: &[char]) -> (s: String)
    ensures
        s@ == v@,
{
    v.iter().collect()
}

/// Appends the characters of `s` to `out`.
pub fn push_str(out: &mut Vec<char>, s: &str)
    ensures
        final(out)@ == old(out)@ + s@,
{
    let mut t = to_chars(s);
    out.append(&mut t);
}

/// Appends the characters of `s` to `out`.
pub fn push_chars(out: &mut Vec<char>, s: &[char])
    ensures
        final(out)@ == old(out)@ + s@,
{
    let mut i: usize = 0;
    let ghost start = out@;
    while i < s.len()
        invariant
            i <= s@.len(),
            out@ == start + s@.take(i as int),
        decreases s@.len() - i,
    {
        out.push(s[i]);
        i = i + 1;
        assert(start + s@.take(i as int) =~= (start + s@.take(i - 1)).push(s@[i - 1]));
    }
    assert(s@.take(s@.len() as int) =~= s@);
}

/// The characters `s[from..to]`.
pub fn copy_range(s: &[char], from: usize, to: usize) -> (r: Vec<char>)
    requires
        from <= to <= s@.len(),
    ensures
        r@ == s@.subrange(from as int, to as int),
{
    let mut r: Vec<char> = Vec::new();
    let mut i: usize = from;
    while i < to
        invariant
            from <= i <= to <= s@.len(),
            r@ == s@.subrange(from as int, i as int),
        decreases to - i,
    {
        r.push(s[i]);
        i = i + 1;
        assert(s@.subrange(from as int, i as int) =~= s@.subrange(from as int, i - 1).push(
            s@[i - 1],
        ));
    }
    r
}

/// Decimal digit character for `d < 10`.
pub open spec fn digit_char(d: nat) -> char {
    ((d as int) + 48) as char
}

/// Upper-case hexadecimal digit character for `d < 16`.
pub open spec fn hex_digit_char(d: nat) -> char {
    if d < 10 {
        ((d as int) + 48) as char
    } else {
        ((d as int) + 55) as char
    }
}

/// Decimal rendering of a natural number, as `{}` formats an unsigned integer.
pub open spec fn dec(n: nat) -> Seq<char>
    decreases n,
{
    if n < 10 {
        seq![digit_char(n)]
    } else {
        dec(n / 10).push(digit_char(n % 10))
    }
}

/// Upper-case hexadecimal rendering without padding.
pub open spec fn hex(n: nat) -> Seq<char>
    decreases n,
{
    if n < 16 {
        seq![hex_digit_char(n)]
    } else {
        hex(n / 16).push(hex_digit_char(n % 16))
    }
}

/// `{:04X}`: upper-case hexadecimal, zero-padded to at least four digits.
pub open spec fn hex4(n: nat) -> Seq<char> {
    let h = hex(n);
    if h.len() >= 4 {
        h
    } else {
        Seq::new((4 - h.len()) as nat, |i: int| '0') + h
    }
}

/// Appends the decimal rendering of `n`.
pub fn push_dec(out: &mut Vec<char>, n: u128)
    ensures
        final(out)@ == old(out)@ + dec(n as nat),
    decreases n,
{
    if n >= 10 {
        push_dec(out, n / 10);
    }
    let d = (n % 10) as u8;
    out.push((d + 48) as char);
    assert(((d + 48) as char) == digit_char((n % 10) as nat));
}

/// Appends the unpadded upper-case hexadecimal rendering of `n`.
fn push_hex(out: &mut Vec<char>, n: u32)
    ensures
        final(out)@ == old(out)@ + hex(n as nat),
    decreases n,
{
    if n >= 16 {
        push_hex(out, n / 16);
    }
    let d = (n % 16) as u8;
    if d < 10 {
        out.push((d + 48) as char);
    } else {
        out.push((d + 55) as char);
    }
}

/// Appends `{:04X}` of `n`.
pub fn push_hex4(out: &mut Vec<char>, n: u32)
    ensures
        final(out)@ == old(out)@ + hex4(n as nat),
{
    let mut h: Vec<char> = Vec::new();
    push_hex(&mut h, n);
    assert(h@ =~= hex(n as nat));
    let ghost start = out@;
    let mut k: usize = h.len();
    while k < 4
        invariant
            h.len() <= k <= 4 || (k == h.len() && k > 4),
            out@ == start + Seq::new((k - h.len()) as nat, |i: int| '0'),
        decreases 4 - k,
    {
        out.push('0');
        k = k + 1;
        assert(start + Seq::new((k - h.len()) as nat, |i: int| '0') =~= (start + Seq::new(
            (k - 1 - h.len()) as nat,
            |i: int| '0',
        )).push('0'));
    }
    let ghost pad = Seq::new((k - h.len()) as nat, |i: int| '0');
    push_chars(out, &h);
    assert(out@ =~= start + (pad + hex(n as nat)));
    if h.len() >= 4 {
        assert(pad =~= Seq::<char>::empty());
        assert(pad + hex(n as nat) =~= hex(n as nat));
    }
}

/* ---------- whitespace and trimming ---------- */

/// First index at or after `i` that does not hold whitespace.
pub open spec fn skip_ws(s: Seq<char>, i: int) -> int
    decreases s.len() - i,
{
    if i < 0 || i >= s.len() {
        if i < 0 { 0 } else { s.len() as int }
    } else if is_ws(s[i]) {
        skip_ws(s, i + 1)
    } else {
        i
    }
}

/// Start of the whitespace run that ends at `j` (exclusive).
pub open spec fn back_ws(s: Seq<char>, j: int) -> int
    decreases j,
{
    if j <= 0 || j > s.len() {
        if j <= 0 { 0 } else { s.len() as int }
    } else if is_ws(s[j - 1]) {
        back_ws(s, j - 1)
    } else {
        j
    }
}

/// `str::trim_start`.
pub open spec fn trim_start(s: Seq<char>) -> Seq<char> {
    s.skip(skip_ws(s, 0))
}

/// `str::trim_end`.
pub open spec fn trim_end(s: Seq<char>) -> Seq<char> {
    s.take(back_ws(s, s.len() as int))
}

/// `str::trim`.
pub open spec fn trim(s: Seq<char>) -> Seq<char> {
    trim_end(trim_start(s))
}

pub proof fn lemma_skip_ws_bounds(s: Seq<char>, i: int)
    requires
        0 <= i <= s.len(),
    ensures
        i <= skip_ws(s, i) <= s.len(),
    decreases s.len() - i,
{
    if i < s.len() && is_ws(s[i]) {
        lemma_skip_ws_bounds(s, i + 1);
    }
}

pub proof fn lemma_back_ws_bounds(s: Seq<char>, j: int)
    requires
        0 <= j <= s.len(),
    ensures
        0 <= back_ws(s, j) <= j,
    decreases j,
{
    if j > 0 && is_ws(s[j - 1]) {
        lemma_back_ws_bounds(s, j - 1);
    }
}

/// Index of the first non-whitespace character of `s`, or its length.
pub fn first_non_ws(s: &[char]) -> (k: usize)
    ensures
        k == skip_ws(s@, 0),
        k <= s@.len(),
{
    let mut k: usize = 0;
    while k < s.len() && char_is_whitespace(s[k])
        invariant
            k <= s@.len(),
            skip_ws(s@, k as int) == skip_ws(s@, 0),
        decreases s@.len() - k,
    {
        k = k + 1;
    }
    k
}

/// Index just past the last non-whitespace character of `s`, or zero.
pub fn end_non_ws(s: &[char]) -> (k: usize)
    ensures
        k == back_ws(s@, s@.len() as int),
        k <= s@.len(),
{
    let mut k: usize = s.len();
    while k > 0 && char_is_whitespace(s[k - 1])
        invariant
            k <= s@.len(),
            back_ws(s@, k as int) == back_ws(s@, s@.len() as int),
        decreases k,
    {
        k = k - 1;
    }
    k
}

pub fn trim_start_chars(s: &[char]) -> (r: Vec<char>)
    ensures
        r@ == trim_start(s@),
        r@.len() <= s@.len(),
{
    let a = first_non_ws(s);
    copy_range(s, a, s.len())
}

pub fn trim_end_chars(s: &[char]) -> (r: Vec<char>)
    ensures
        r@ == trim_end(s@),
        r@.len() <= s@.len(),
{
    let b = end_non_ws(s);
    copy_range(s, 0, b)
}

pub fn trim_chars(s: &[char]) -> (r: Vec<char>)
    ensures
        r@ == trim(s@),
        r@.len() <= s@.len(),
{
    let t = trim_start_chars(s);
    trim_end_chars(&t)
}

/// `skip_ws` stops at a non-whitespace character or at the end.
pub proof fn lemma_skip_ws_stop(s: Seq<char>, i: int)
    requires
        0 <= i <= s.len(),
    ensures
        i <= skip_ws(s, i) <= s.len(),
        skip_ws(s, i) < s.len() ==> !is_ws(s[skip_ws(s, i)]),
    decreases s.len() - i,
{
    if i < s.len() && is_ws(s[i]) {
        lemma_skip_ws_stop(s, i + 1);
    }
}

/// `back_ws` stops just after a non-whitespace character or at the start.
pub proof fn lemma_back_ws_stop(s: Seq<char>, j: int)
    requires
        0 <= j <= s.len(),
    ensures
        0 <= back_ws(s, j) <= j,
        back_ws(s, j) > 0 ==> !is_ws(s[back_ws(s, j) - 1]),
    decreases j,
{
    if j > 0 && is_ws(s[j - 1]) {
        lemma_back_ws_stop(s, j - 1);
    }
}

/// A trimmed text is a piece of the text that neither starts nor ends with
/// whitespace; a text that neither starts nor ends with whitespace is its
/// own trim. Returns where the trimmed piece starts.
pub proof fn lemma_trim_ends(s: Seq<char>) -> (a: int)
    ensures
        0 <= a,
        a + trim(s).len() <= s.len(),
        trim(s) == s.subrange(a, a + trim(s).len()),
        trim(s).len() > 0 ==> !is_ws(trim(s)[0]) && !is_ws(trim(s).last()),
        (s.len() == 0 || (!is_ws(s[0]) && !is_ws(s.last()))) ==> trim(s) == s,
{
    lemma_skip_ws_stop(s, 0);
    let a = skip_ws(s, 0);
    let t = trim_start(s);
    lemma_back_ws_stop(t, t.len() as int);
    let b = back_ws(t, t.len() as int);
    assert(trim(s) =~= s.subrange(a, a + b));
    if b > 0 {
        assert(trim(s)[0] == t[0]);
        assert(t[0] == s[a]);
    }
    if s.len() == 0 || (!is_ws(s[0]) && !is_ws(s.last())) {
        assert(a == 0);
        assert(t =~= s);
        assert(trim(s) =~= s);
    }
    a
}

/* ---------- searching ---------- */

/// `p` occurs in `s` at position `i`.
pub open spec fn occurs_at(s: Seq<char>, p: Seq<char>, i: int) -> bool {
    0 <= i && i + p.len() <= s.len() && s.subrange(i, i + p.len()) == p
}

/// `str::contains` with a string or character pattern.
pub open spec fn contains(s: Seq<char>, p: Seq<char>) -> bool {
    exists|i: int| occurs_at(s, p, i)
}

/// `str::starts_with`.
pub open spec fn starts_with(s: Seq<char>, p: Seq<char>) -> bool {
    occurs_at(s, p, 0)
}

/// `str::ends_with`.
pub open spec fn ends_with(s: Seq<char>, p: Seq<char>) -> bool {
    p.len() <= s.len() && occurs_at(s, p, s.len() - p.len())
}

/// Whether `p` occurs in `s` at `i`.
pub fn matches_at(s: &[char], p: &[char], i: usize) -> (b: bool)
    ensures
        b == occurs_at(s@, p@, i as int),
{
    if i > s.len() || s.len() - i < p.len() {
        return false;
    }
    let mut k: usize = 0;
    while k < p.len()
        invariant
            i <= s@.len(),
            p@.len() <= s@.len() - i,
            s@.len() == s.len(),
            k <= p@.len(),
            forall|m: int| 0 <= m < k ==> s@[i + m] == p@[m],
        decreases p@.len() - k,
    {
        assert(i + k < s@.len());
        if s[i + k] != p[k] {
            assert(s@.subrange(i as int, i + p@.len())[k as int] != p@[k as int]);
            return false;
        }
        k = k + 1;
    }
    assert(s@.subrange(i as int, i + p@.len()) =~= p@);
    true
}

pub fn starts_with_chars(s: &[char], p: &[char]) -> (b: bool)
    ensures
        b == starts_with(s@, p@),
{
    matches_at(s, p, 0)
}

pub fn ends_with_chars(s: &[char], p: &[char]) -> (b: bool)
    ensures
        b == ends_with(s@, p@),
{
    if p.len() > s.len() {
        false
    } else {
        matches_at(s, p, s.len() - p.len())
    }
}

/// `s` starts with the literal `p`.
pub fn starts_with_str(s: &[char], p: &str) -> (b: bool)
    ensures
        b == starts_with(s@, p@),
{
    let pc = to_chars(p);
    starts_with_chars(s, &pc)
}

/// `s` ends with the literal `p`.
pub fn ends_with_str(s: &[char], p: &str) -> (b: bool)
    ensures
        b == ends_with(s@, p@),
{
    let pc = to_chars(p);
    ends_with_chars(s, &pc)
}

/// First position at which `p` occurs in `s`, from `from` on.
pub open spec fn find_from(s: Seq<char>, p: Seq<char>, from: int) -> Option<int>
    decreases s.len() + 1 - from,
{
    if from < 0 || from + p.len() > s.len() {
        None
    } else if occurs_at(s, p, from) {
        Some(from)
    } else {
        find_from(s, p, from + 1)
    }
}

/// `str::find`, counted in characters.
pub open spec fn find(s: Seq<char>, p: Seq<char>) -> Option<int> {
    find_from(s, p, 0)
}

pub proof fn lemma_find_from(s: Seq<char>, p: Seq<char>, from: int)
    requires
        0 <= from,
    ensures
        find_from(s, p, from) matches Some(k) ==> from <= k && occurs_at(s, p, k) && (forall|m: int|
            from <= m < k ==> !occurs_at(s, p, m)),
        find_from(s, p, from) is None ==> forall|m: int| from <= m ==> !occurs_at(s, p, m),
    decreases s.len() + 1 - from,
{
    if from + p.len() <= s.len() && !occurs_at(s, p, from) {
        lemma_find_from(s, p, from + 1);
    }
}

/// `contains` holds exactly when `find` finds something.
pub proof fn lemma_find_contains(s: Seq<char>, p: Seq<char>)
    ensures
        contains(s, p) <==> find(s, p) is Some,
{
    lemma_find_from(s, p, 0);
    if let Some(k) = find(s, p) {
        assert(occurs_at(s, p, k));
    }
}

/// `str::find`: the first position of `p` in `s`.
pub fn find_chars(s: &[char], p: &[char]) -> (r: Option<usize>)
    ensures
        r matches Some(k) ==> find(s@, p@) == Some(k as int) && k + p@.len() <= s@.len(),
        r is None ==> find(s@, p@) is None,
{
    let mut i: usize = 0;
    if p.len() > s.len() {
        return None;
    }
    if p.len() == 0 {
        assert(s@.subrange(0, 0) =~= p@);
        return Some(0);
    }
    while i <= s.len() - p.len()
        invariant
            0 < p@.len() <= s@.len(),
            i <= s@.len(),
            find_from(s@, p@, i as int) == find(s@, p@),
        decreases s@.len() - i,
    {
        if matches_at(s, p, i) {
            proof {
                lemma_find_from(s@, p@, 0);
            }
            return Some(i);
        }
        i = i + 1;
    }
    None
}

/// `str::contains`.
pub fn contains_chars(s: &[char], p: &[char]) -> (b: bool)
    ensures
        b == contains(s@, p@),
{
    proof {
        lemma_find_contains(s@, p@);
    }
    find_chars(s, p).is_some()
}

/// `s` contains the literal `p`.
pub fn contains_str(s: &[char], p: &str) -> (b: bool)
    ensures
        b == contains(s@, p@),
{
    let pc = to_chars(p);
    contains_chars(s, &pc)
}

/// Number of non-overlapping occurrences of `p` found scanning from `i`
/// leftmost-first, as `str::matches(..).count()` counts them.
pub open spec fn count_from(s: Seq<char>, p: Seq<char>, i: int) -> nat
    decreases s.len() + 1 - i,
{
    if p.len() == 0 || i < 0 || i + p.len() > s.len() {
        0
    } else if occurs_at(s, p, i) {
        1 + count_from(s, p, i + p.len())
    } else {
        count_from(s, p, i + 1)
    }
}

/// `str::matches(p).count()` for a non-empty pattern.
pub open spec fn count_matches(s: Seq<char>, p: Seq<char>) -> nat {
    count_from(s, p, 0)
}

pub fn count_matches_chars(s: &[char], p: &[char]) -> (n: usize)
    ensures
        n == count_matches(s@, p@),
{
    let mut i: usize = 0;
    let mut n: usize = 0;
    if p.len() > s.len() || p.len() == 0 {
        return 0;
    }
    while i <= s.len() - p.len()
        invariant
            0 < p@.len() <= s@.len(),
            i <= s@.len(),
            n <= i,
            n + count_from(s@, p@, i as int) == count_matches(s@, p@),
        decreases s@.len() - i,
    {
        if matches_at(s, p, i) {
            n = n + 1;
            i = i + p.len();
        } else {
            i = i + 1;
        }
    }
    n
}

/* ---------- lines ---------- */

/// First index at or after `i` holding a line feed, or the length.
pub open spec fn next_nl(s: Seq<char>, i: int) -> int
    decreases s.len() - i,
{
    if i < 0 || i >= s.len() {
        if i < 0 { 0 } else { s.len() as int }
    } else if s[i] == '\n' {
        i
    } else {
        next_nl(s, i + 1)
    }
}

/// A line that ended in a line feed loses one carriage return before it.
pub open spec fn strip_cr(l: Seq<char>) -> Seq<char> {
    if l.len() > 0 && l.last() == '\r' {
        l.drop_last()
    } else {
        l
    }
}

/// The lines of `s` from index `start` on, as `str::lines` splits them: at
/// each `\n`, dropping a `\r` just before it; a final line without `\n` is
/// kept as it is; no line follows a final `\n`.
pub open spec fn lines_from(s: Seq<char>, start: int) -> Seq<Seq<char>>
    decreases s.len() - start,
{
    if start < 0 || start >= s.len() {
        Seq::empty()
    } else {
        let e = next_nl(s, start);
        if e >= s.len() {
            seq![s.subrange(start, s.len() as int)]
        } else if e < start {
            Seq::empty()
        } else {
            seq![strip_cr(s.subrange(start, e))] + lines_from(s, e + 1)
        }
    }
}

/// `str::lines`.
pub open spec fn lines_of(s: Seq<char>) -> Seq<Seq<char>> {
    lines_from(s, 0)
}

pub proof fn lemma_next_nl(s: Seq<char>, i: int)
    requires
        0 <= i <= s.len(),
    ensures
        i <= next_nl(s, i) <= s.len(),
        next_nl(s, i) < s.len() ==> s[next_nl(s, i)] == '\n',
        forall|k: int| i <= k < next_nl(s, i) ==> s[k] != '\n',
    decreases s.len() - i,
{
    if i < s.len() && s[i] != '\n' {
        lemma_next_nl(s, i + 1);
    }
}

pub fn next_newline(s: &[char], from: usize) -> (e: usize)
    requires
        from <= s@.len(),
    ensures
        e == next_nl(s@, from as int),
{
    let mut e = from;
    while e < s.len() && s[e] != '\n'
        invariant
            from <= e <= s@.len(),
            next_nl(s@, e as int) == next_nl(s@, from as int),
        decreases s@.len() - e,
    {
        e = e + 1;
    }
    e
}

/// The texts held by a vector of character vectors.
pub open spec fn texts(v: Seq<Vec<char>>) -> Seq<Seq<char>> {
    Seq::new(v.len(), |i: int| v[i]@)
}

/// `str::lines`, each line as its characters.
pub fn split_lines(s: &[char]) -> (out: Vec<Vec<char>>)
    ensures
        texts(out@) == lines_of(s@),
{
    let mut out: Vec<Vec<char>> = Vec::new();
    let mut start: usize = 0;
    while start < s.len()
        invariant
            start <= s@.len(),
            texts(out@) + lines_from(s@, start as int) == lines_of(s@),
        decreases s@.len() - start,
    {
        let e = next_newline(s, start);
        proof {
            lemma_next_nl(s@, start as int);
        }
        let ghost before = texts(out@);
        let ghost bv = out@;
        if e >= s.len() {
            let l = copy_range(s, start, s.len());
            out.push(l);
            assert(out@ == bv.push(l));
            assert(texts(out@) =~= before.push(s@.subrange(start as int, s@.len() as int)));
            assert(lines_from(s@, s@.len() as int) =~= Seq::<Seq<char>>::empty());
            assert(texts(out@) + lines_from(s@, s@.len() as int) =~= before + lines_from(
                s@,
                start as int,
            ));
            start = s.len();
        } else {
            let mut l = copy_range(s, start, e);
            if l.len() > 0 && l[l.len() - 1] == '\r' {
                l.pop();
            }
            assert(l@ =~= strip_cr(s@.subrange(start as int, e as int)));
            out.push(l);
            assert(texts(out@) =~= before.push(strip_cr(s@.subrange(start as int, e as int))));
            assert(texts(out@) + lines_from(s@, e + 1) =~= before + lines_from(
                s@,
                start as int,
            ));
            start = e + 1;
        }
    }
    assert(lines_from(s@, start as int) =~= Seq::<Seq<char>>::empty());
    assert(texts(out@) + Seq::<Seq<char>>::empty() =~= texts(out@));
    out
}

/// Whether two texts are equal.
pub fn eq_chars(a: &[char], b: &[char]) -> (r: bool)
    ensures
        r == (a@ == b@),
{
    if a.len() != b.len() {
        return false;
    }
    let r = starts_with_chars(a, b);
    assert(a@.subrange(0, b@.len() as int) =~= a@);
    r
}

/// Total length of the first `n` texts.
pub open spec fn len_sum(ls: Seq<Seq<char>>, n: nat) -> nat
    decreases n,
{
    if n == 0 {
        0
    } else {
        len_sum(ls, (n - 1) as nat) + ls[n - 1].len()
    }
}

proof fn lemma_len_sum_prepend(a: Seq<char>, rest: Seq<Seq<char>>, n: nat)
    requires
        n <= rest.len(),
    ensures
        len_sum(seq![a] + rest, n + 1) == a.len() + len_sum(rest, n),
    decreases n,
{
    let x = seq![a] + rest;
    assert(x[0] == a);
    if n > 0 {
        lemma_len_sum_prepend(a, rest, (n - 1) as nat);
        assert(x[n as int] == rest[n - 1]);
        assert(len_sum(x, n + 1) == len_sum(x, n) + x[n as int].len());
        assert(len_sum(rest, n) == len_sum(rest, (n - 1) as nat) + rest[n - 1].len());
    } else {
        assert(len_sum(x, 1) == len_sum(x, 0) + x[0].len());
    }
}

proof fn lemma_lines_from_len(s: Seq<char>, start: int)
    requires
        0 <= start <= s.len(),
    ensures
        len_sum(lines_from(s, start), lines_from(s, start).len()) <= s.len() - start,
    decreases s.len() - start,
{
    if start < s.len() {
        let e = next_nl(s, start);
        lemma_next_nl(s, start);
        if e >= s.len() {
            let l = s.subrange(start, s.len() as int);
            assert(lines_from(s, start) == seq![l]);
            assert(len_sum(seq![l], 1) == len_sum(seq![l], 0) + l.len());
        } else {
            let l = strip_cr(s.subrange(start, e));
            let rest = lines_from(s, e + 1);
            lemma_lines_from_len(s, e + 1);
            lemma_len_sum_prepend(l, rest, rest.len());
            assert(lines_from(s, start) == seq![l] + rest);
        }
    }
}

/// Sums of lengths grow with the number of texts summed.
pub proof fn lemma_len_sum_mono(ls: Seq<Seq<char>>, a: nat, b: nat)
    requires
        a <= b,
    ensures
        len_sum(ls, a) <= len_sum(ls, b),
    decreases b - a,
{
    if a < b {
        lemma_len_sum_mono(ls, a, (b - 1) as nat);
    }
}

/// The lines of a text are no longer, together, than the text.
pub proof fn lemma_lines_len(s: Seq<char>)
    ensures
        len_sum(lines_of(s), lines_of(s).len()) <= s.len(),
{
    lemma_lines_from_len(s, 0);
}

} // verus!
