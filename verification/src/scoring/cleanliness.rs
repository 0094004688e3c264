//! Cleanliness: byte-order mark, final newline, line endings, trailing
//! whitespace, line length, indentation, control characters, blank lines.
use super::{lemma_per_line_score_monotone, normalized_score, per_line_score};
use crate::models::{lemma_note_if, note, note_if, note_views, push_note, Note, NoteView};
use crate::text::{
    back_ws, is_ws, trim_start,
    byte_len, char_utf8_len, contains, contains_str, dec, ends_with, ends_with_str, hex4, lines_of,
    push_dec, push_hex4, push_str, skip_ws, split_lines, starts_with, starts_with_str, string_from_chars,
    texts, to_ascii_lower, to_chars, trim, trim_chars, first_non_ws, copy_range, lower, occurs_at,
};
use vstd::prelude::*;
use vstd::string::StringExecFns;

verus! {

/// More blank lines in a row than this are an issue.
pub const MAX_CONSECUTIVE_BLANKS: usize = 1;

/// Tabs in indentation are an issue.
pub const FLAG_TABS_IN_INDENT: bool = true;

/// A line that is a single URL may exceed the length limit.
pub const IGNORE_URLS_FOR_LENGTH: bool = true;

/// 1 for true, 0 for false.
pub open spec fn b2n(b: bool) -> nat {
    if b { 1 } else { 0 }
}

/// Start of the run of carriage returns that ends at `j`.
pub open spec fn back_cr(l: Seq<char>, j: int) -> int
    decreases j,
{
    if j <= 0 || j > l.len() {
        if j <= 0 { 0 } else { l.len() as int }
    } else if l[j - 1] == '\r' {
        back_cr(l, j - 1)
    } else {
        j
    }
}

/// A tidy line: not blank, at most `max_len` characters, only printable
/// ASCII (so no tab, carriage return or control character), and not ending
/// in a space.
pub open spec fn tidy_line(l: Seq<char>, max_len: nat) -> bool {
    &&& trim(l).len() > 0
    &&& l.len() <= max_len
    &&& forall|k: int| 0 <= k < l.len() ==> ' ' <= #[trigger] l[k] <= '~'
    &&& l.last() != ' '
}

/// One tidy line raises no cleanliness issue: it is kept as it is (no
/// carriage return to strip), costs nothing, is not blank, and has no tab
/// in its indentation.
proof fn lemma_tidy_line(l: Seq<char>, line_no: nat, max_len: nat)
    requires
        tidy_line(l, max_len),
    ensures
        strip_trailing_cr(l) == l,
        line_issues(l, line_no, max_len).0 == 0,
        trim(l).len() > 0,
        !contains(indent_of(l), "\t"@),
{
    reveal_strlit("\r");
    reveal_strlit(" ");
    reveal_strlit("\t");
    assert(l.len() > 0);
    assert(back_cr(l, l.len() as int) == l.len());
    assert(strip_trailing_cr(l) =~= l);
    if ends_with(l, "\r"@) {
        assert(l.subrange(l.len() - 1, l.len() as int)[0] == l[l.len() - 1]);
    }
    if ends_with(l, "\t"@) {
        assert(l.subrange(l.len() - 1, l.len() as int)[0] == l[l.len() - 1]);
    }
    if ends_with(l, " "@) {
        assert(l.subrange(l.len() - 1, l.len() as int)[0] == l[l.len() - 1]);
    }
    let ind = indent_of(l);
    crate::text::lemma_skip_ws_bounds(l, 0);
    if contains(ind, "\t"@) {
        let i = choose|i: int| occurs_at(ind, "\t"@, i);
        assert(ind.subrange(i, i + 1)[0] == ind[i]);
        assert(ind[i] == l[i]);
    }
    lemma_first_suspicious(l, 0);
    if first_suspicious_from(l, 0) is Some {
        let k = first_suspicious_from(l, 0)->0;
        assert(' ' <= l[k] <= '~');
    }
}

/// The scan over tidy lines finds nothing: no penalty, no tab seen, no
/// blank run, and the last line is the last non-blank one.
proof fn lemma_tidy_scan(lines: Seq<Seq<char>>, n: nat, max_len: nat)
    requires
        n <= lines.len(),
        forall|k: int| 0 <= k < lines.len() ==> tidy_line(#[trigger] lines[k], max_len),
    ensures
        clean_scan(lines, n, max_len).penalties == 0,
        !clean_scan(lines, n, max_len).saw_tab,
        clean_scan(lines, n, max_len).blanks == 0,
        clean_scan(lines, n, max_len).last_non_blank == n,
    decreases n,
{
    if n > 0 {
        lemma_tidy_scan(lines, (n - 1) as nat, max_len);
        lemma_tidy_line(lines[n - 1], n, max_len);
    }
}

/// A text of tidy lines, without byte-order mark and ending in a line feed
/// (or empty), has no cleanliness issue and scores 100.
pub proof fn lemma_tidy_text_full_marks(code: Seq<char>, max_len: nat)
    requires
        code.len() == 0 || (code[0] != '\u{feff}' && code.last() == '\n'),
        forall|k: int| 0 <= k < lines_of(code).len() ==> tidy_line(#[trigger] lines_of(code)[k], max_len),
    ensures
        cleanliness_findings(code, max_len).0 == 0,
        cleanliness_score(code, max_len) == 100,
{
    reveal_strlit("\n");
    assert(body_of(code) == code);
    let lines = lines_of(code);
    lemma_tidy_scan(lines, lines.len(), max_len);
    if code.len() > 0 {
        assert(code.subrange(code.len() - 1, code.len() as int) =~= "\n"@);
    }
    super::lemma_per_line_score_range(0, lines.len());
}

/// `back_ws` never passes a non-whitespace character.
proof fn lemma_back_ws_past(s: Seq<char>, j: int, k: int)
    requires
        0 <= k < j <= s.len(),
        !is_ws(s[k]),
    ensures
        back_ws(s, j) > k,
    decreases j,
{
    if j - 1 > k && is_ws(s[j - 1]) {
        lemma_back_ws_past(s, j - 1, k);
    }
}

/// A plain line: not empty, only printable ASCII, and starting with neither
/// a space nor `h` or `w` (so it is no URL).
pub open spec fn plain_line(l: Seq<char>) -> bool {
    &&& l.len() > 0
    &&& l[0] != ' ' && l[0] != 'h' && l[0] != 'w'
    &&& forall|k: int| 0 <= k < l.len() ==> ' ' <= #[trigger] l[k] <= '~'
}

/// Lines among the first `n` that end in a space.
pub open spec fn lines_ending_in_space(ls: Seq<Seq<char>>, n: nat) -> nat
    decreases n,
{
    if n == 0 {
        0
    } else {
        lines_ending_in_space(ls, (n - 1) as nat) + if ls[n - 1].last() == ' ' {
            1nat
        } else {
            0nat
        }
    }
}

/// Lines among the first `n` longer than `max_len` characters.
pub open spec fn lines_longer_than(ls: Seq<Seq<char>>, n: nat, max_len: nat) -> nat
    decreases n,
{
    if n == 0 {
        0
    } else {
        lines_longer_than(ls, (n - 1) as nat, max_len) + if ls[n - 1].len() > max_len {
            1nat
        } else {
            0nat
        }
    }
}

/// A plain line costs one for a trailing space and one for being longer
/// than the limit, and nothing else.
proof fn lemma_plain_line(l: Seq<char>, line_no: nat, max_len: nat)
    requires
        plain_line(l),
    ensures
        strip_trailing_cr(l) == l,
        line_issues(l, line_no, max_len).0 == (if l.last() == ' ' { 1nat } else { 0nat }) + (if l.len()
            > max_len {
            1nat
        } else {
            0nat
        }),
        trim(l).len() > 0,
        !contains(indent_of(l), "\t"@),
{
    reveal_strlit("\r");
    reveal_strlit(" ");
    reveal_strlit("\t");
    reveal_strlit("http://");
    reveal_strlit("https://");
    reveal_strlit("www.");
    assert(back_cr(l, l.len() as int) == l.len());
    assert(strip_trailing_cr(l) =~= l);
    if ends_with(l, "\r"@) {
        assert(l.subrange(l.len() - 1, l.len() as int)[0] == l[l.len() - 1]);
    }
    if ends_with(l, "\t"@) {
        assert(l.subrange(l.len() - 1, l.len() as int)[0] == l[l.len() - 1]);
    }
    assert(ends_with(l, " "@) == (l.last() == ' ')) by {
        if ends_with(l, " "@) {
            assert(l.subrange(l.len() - 1, l.len() as int)[0] == l[l.len() - 1]);
        }
        if l.last() == ' ' {
            assert(l.subrange(l.len() - 1, l.len() as int) =~= " "@);
        }
    }
    assert(skip_ws(l, 0) == 0);
    assert(trim_start(l) =~= l);
    lemma_back_ws_past(l, l.len() as int, 0);
    crate::text::lemma_back_ws_bounds(l, l.len() as int);
    let t = trim(l);
    assert(t == l.take(back_ws(l, l.len() as int)));
    assert(t.len() > 0 && t[0] == l[0]);
    if starts_with(t, "http://"@) {
        assert(t.subrange(0, 7)[0] == t[0]);
    }
    if starts_with(t, "https://"@) {
        assert(t.subrange(0, 8)[0] == t[0]);
    }
    if starts_with(t, "www."@) {
        assert(t.subrange(0, 4)[0] == t[0]);
    }
    assert(!mostly_single_url(l));
    let ind = indent_of(l);
    assert(ind.len() == 0);
    if contains(ind, "\t"@) {
        let i = choose|i: int| occurs_at(ind, "\t"@, i);
    }
    lemma_first_suspicious(l, 0);
    if first_suspicious_from(l, 0) is Some {
        let k = first_suspicious_from(l, 0)->0;
        assert(' ' <= l[k] <= '~');
    }
}

/// The scan over plain lines finds one issue per line ending in a space and
/// one per line over the limit, sees no tab, no blank run, and the last
/// line is the last non-blank one.
proof fn lemma_plain_scan(lines: Seq<Seq<char>>, n: nat, max_len: nat)
    requires
        n <= lines.len(),
        forall|k: int| 0 <= k < lines.len() ==> plain_line(#[trigger] lines[k]),
    ensures
        clean_scan(lines, n, max_len).penalties == lines_ending_in_space(lines, n) + lines_longer_than(
            lines,
            n,
            max_len,
        ),
        !clean_scan(lines, n, max_len).saw_tab,
        clean_scan(lines, n, max_len).last_non_blank == n,
    decreases n,
{
    if n > 0 {
        lemma_plain_scan(lines, (n - 1) as nat, max_len);
        lemma_plain_line(lines[n - 1], n, max_len);
    }
}

/// In a text of plain lines, without byte-order mark and ending in a line
/// feed (or empty), the cleanliness issues are exactly the lines ending in
/// a space and the lines longer than the limit, one each.
pub proof fn lemma_plain_text_issues(code: Seq<char>, max_len: nat)
    requires
        code.len() == 0 || (code[0] != '\u{feff}' && code.last() == '\n'),
        forall|k: int| 0 <= k < lines_of(code).len() ==> plain_line(#[trigger] lines_of(code)[k]),
    ensures
        cleanliness_findings(code, max_len).0 == lines_ending_in_space(lines_of(code), lines_of(code).len())
            + lines_longer_than(lines_of(code), lines_of(code).len(), max_len),
{
    reveal_strlit("\n");
    assert(body_of(code) == code);
    let lines = lines_of(code);
    lemma_plain_scan(lines, lines.len(), max_len);
    if code.len() > 0 {
        assert(code.subrange(code.len() - 1, code.len() as int) =~= "\n"@);
    }
}

/// The line scan with a larger length limit finds no more issues, and
/// carries the same indentation and blank-line state.
proof fn lemma_clean_scan_limit(lines: Seq<Seq<char>>, n: nat, m1: nat, m2: nat)
    requires
        m1 <= m2,
    ensures
        clean_scan(lines, n, m2).penalties <= clean_scan(lines, n, m1).penalties,
        clean_scan(lines, n, m2).saw_tab == clean_scan(lines, n, m1).saw_tab,
        clean_scan(lines, n, m2).saw_space == clean_scan(lines, n, m1).saw_space,
        clean_scan(lines, n, m2).blanks == clean_scan(lines, n, m1).blanks,
        clean_scan(lines, n, m2).last_non_blank == clean_scan(lines, n, m1).last_non_blank,
    decreases n,
{
    if n > 0 {
        lemma_clean_scan_limit(lines, (n - 1) as nat, m1, m2);
    }
}

/// A larger line-length limit never lowers the cleanliness score.
pub proof fn lemma_cleanliness_limit_monotone(code: Seq<char>, m1: nat, m2: nat)
    requires
        m1 <= m2,
    ensures
        cleanliness_score(code, m1) <= cleanliness_score(code, m2),
{
    let lines = lines_of(body_of(code));
    lemma_clean_scan_limit(lines, lines.len(), m1, m2);
    lemma_per_line_score_monotone(
        cleanliness_findings(code, m2).0,
        cleanliness_findings(code, m1).0,
        lines_of(code).len(),
    );
}

/// `str::trim_end_matches('\r')`.
pub open spec fn strip_trailing_cr(l: Seq<char>) -> Seq<char> {
    l.take(back_cr(l, l.len() as int))
}

/// A line that, trimmed, is one URL: non-empty, without spaces, starting
/// with `http://`, `https://` or `www.`.
pub open spec fn mostly_single_url(line: Seq<char>) -> bool {
    let t = trim(line);
    t.len() > 0 && !contains(t, " "@) && (starts_with(t, "http://"@) || starts_with(t, "https://"@)
        || starts_with(t, "www."@))
}

/// A character that should not appear in source text: an ASCII control
/// character other than tab, DEL, a line or paragraph separator, a
/// zero-width space or a word joiner.
pub open spec fn suspicious(c: char) -> bool {
    (c < ' ' && c != '\t') || c == '\u{7f}' || c == '\u{2028}' || c == '\u{2029}' || c == '\u{200b}'
        || c == '\u{2060}'
}

/// Index of the first suspicious character at or after `i`.
pub open spec fn first_suspicious_from(l: Seq<char>, i: int) -> Option<int>
    decreases l.len() - i,
{
    if i < 0 || i >= l.len() {
        None
    } else if suspicious(l[i]) {
        Some(i)
    } else {
        first_suspicious_from(l, i + 1)
    }
}

pub proof fn lemma_first_suspicious(l: Seq<char>, i: int)
    requires
        0 <= i,
    ensures
        first_suspicious_from(l, i) matches Some(k) ==> i <= k < l.len() && suspicious(l[k]),
    decreases l.len() - i,
{
    if i < l.len() && !suspicious(l[i]) {
        lemma_first_suspicious(l, i + 1);
    }
}

/// The line mentions TODO or FIXME, in any ASCII case.
pub open spec fn has_marker(l: Seq<char>) -> bool {
    contains(lower(l), "todo"@) || contains(lower(l), "fixme"@)
}

/// The leading whitespace of a line.
pub open spec fn indent_of(l: Seq<char>) -> Seq<char> {
    l.take(skip_ws(l, 0))
}

pub open spec fn length_msg(max_len: nat, len: nat) -> Seq<char> {
    "Line exceeds "@ + dec(max_len) + " chars ("@ + dec(len) + " chars)"@
}

pub open spec fn control_msg(c: char, col: nat) -> Seq<char> {
    "Control character U+"@ + hex4((c as u32) as nat) + " at col "@ + dec(col)
}

/// The note for the first suspicious character of a line, if any.
pub open spec fn control_notes(c: Seq<char>, line_no: nat) -> Seq<NoteView> {
    match first_suspicious_from(c, 0) {
        Some(k) => seq![
            note(line_no, "control_character"@, "warn"@, control_msg(c[k], byte_len(c.take(k)) + 1)),
        ],
        None => Seq::empty(),
    }
}

/// What the line scan carries from one line to the next.
pub struct CleanScan {
    pub penalties: nat,
    pub notes: Seq<NoteView>,
    pub saw_tab: bool,
    pub saw_space: bool,
    pub blanks: nat,
    pub last_non_blank: nat,
}

/// The issues of one line (numbered `line_no`) that do not depend on the
/// lines around it, in the order they are reported: line ending, trailing
/// whitespace, length, tab indentation, control character; plus the
/// TODO/FIXME remark, which costs nothing. Returns the penalty count and
/// the notes.
pub open spec fn line_issues(line: Seq<char>, line_no: nat, max_len: nat) -> (nat, Seq<NoteView>) {
    let c = strip_trailing_cr(line);
    let cr = ends_with(line, "\r"@);
    let tw = c.len() > 0 && (ends_with(c, " "@) || ends_with(c, "\t"@));
    let too_long = c.len() > max_len && !(IGNORE_URLS_FOR_LENGTH && mostly_single_url(c));
    let tab_issue = FLAG_TABS_IN_INDENT && contains(indent_of(c), "\t"@);
    (
        b2n(cr) + b2n(tw) + b2n(too_long) + b2n(tab_issue) + b2n(first_suspicious_from(c, 0) is Some),
        note_if(cr, note(line_no, "carriage_return"@, "info"@, "Line ends with a CR; prefer LF-only"@))
            + note_if(tw, note(line_no, "trailing_whitespace"@, "info"@, "Trailing whitespace detected"@))
            + note_if(too_long, note(line_no, "line_length"@, "info"@, length_msg(max_len, c.len())))
            + note_if(
            tab_issue,
            note(line_no, "tab_indentation"@, "info"@, "Tab character found in indentation"@),
        ) + control_notes(c, line_no) + note_if(
            has_marker(c),
            note(line_no, "todo_marker"@, "info"@, "Found TODO/FIXME marker"@),
        ),
    )
}

/// The checks of one line (numbered `line_no`), after those of the lines
/// before it left the scan in `st`.
pub open spec fn clean_step(st: CleanScan, line: Seq<char>, line_no: nat, max_len: nat) -> CleanScan {
    let c = strip_trailing_cr(line);
    let ind = indent_of(c);
    let issues = line_issues(line, line_no, max_len);
    let blank = trim(c).len() == 0;
    let blanks = if blank { st.blanks + 1 } else { 0nat };
    let excess = blank && blanks > MAX_CONSECUTIVE_BLANKS;
    CleanScan {
        penalties: st.penalties + issues.0 + b2n(excess),
        notes: st.notes + issues.1 + note_if(
            excess,
            note(line_no, "excess_blank_lines"@, "info"@, "Too many consecutive blank lines"@),
        ),
        saw_tab: st.saw_tab || contains(ind, "\t"@),
        saw_space: st.saw_space || contains(ind, " "@),
        blanks,
        last_non_blank: if blank { st.last_non_blank } else { line_no },
    }
}

/// The scan over the first `n` lines.
pub open spec fn clean_scan(lines: Seq<Seq<char>>, n: nat, max_len: nat) -> CleanScan
    decreases n,
{
    if n == 0 {
        CleanScan {
            penalties: 0,
            notes: Seq::empty(),
            saw_tab: false,
            saw_space: false,
            blanks: 0,
            last_non_blank: 0,
        }
    } else {
        clean_step(clean_scan(lines, (n - 1) as nat, max_len), lines[n - 1], n, max_len)
    }
}

/// The text starts with a byte-order mark.
pub open spec fn has_bom(code: Seq<char>) -> bool {
    code.len() > 0 && code[0] == '\u{feff}'
}

/// The text without its byte-order mark.
pub open spec fn body_of(code: Seq<char>) -> Seq<char> {
    if has_bom(code) {
        code.skip(1)
    } else {
        code
    }
}

/// A non-empty text that does not end with a line feed.
pub open spec fn missing_final_newline(code: Seq<char>) -> bool {
    code.len() > 0 && !ends_with(code, "\n"@)
}

/// The cleanliness issues of a text: their penalty count and notes, in the
/// order found.
pub open spec fn cleanliness_findings(code: Seq<char>, max_len: nat) -> (nat, Seq<NoteView>) {
    let lines = lines_of(body_of(code));
    let n = lines.len();
    let s = clean_scan(lines, n, max_len);
    let trailing = n > s.last_non_blank;
    let mixed = s.saw_tab && s.saw_space;
    (
        b2n(has_bom(code)) + b2n(missing_final_newline(code)) + s.penalties + b2n(trailing) + 2 * b2n(
            mixed,
        ),
        note_if(
            has_bom(code),
            note(1, "bom_present"@, "info"@, "File starts with a UTF-8 BOM; prefer no BOM"@),
        ) + note_if(
            missing_final_newline(code),
            note(0, "missing_final_newline"@, "info"@, "File does not end with a newline"@),
        ) + s.notes + note_if(
            trailing,
            note(n, "trailing_blank_lines"@, "info"@, "Trailing blank lines at EOF"@),
        ) + note_if(mixed, note(0, "mixed_indentation"@, "warn"@, "Mixed tabs and spaces across file"@)),
    )
}

/// The cleanliness score: the penalty count normalized by the line count.
pub open spec fn cleanliness_score(code: Seq<char>, max_len: nat) -> nat {
    per_line_score(cleanliness_findings(code, max_len).0, lines_of(code).len())
}

/// `str::trim_end_matches('\r')`.
fn strip_trailing_cr_chars(l: &[char]) -> (r: Vec<char>)
    ensures
        r@ == strip_trailing_cr(l@),
{
    let mut k = l.len();
    while k > 0 && l[k - 1] == '\r'
        invariant
            k <= l@.len(),
            back_cr(l@, k as int) == back_cr(l@, l@.len() as int),
        decreases k,
    {
        k = k - 1;
    }
    copy_range(l, 0, k)
}

/// Whether the line is essentially one URL, which may exceed the limit.
fn is_mostly_single_url(line: &[char]) -> (b: bool)
    ensures
        b == mostly_single_url(line@),
{
    let t = trim_chars(line);
    if t.len() == 0 || contains_str(&t, " ") {
        return false;
    }
    starts_with_str(&t, "http://") || starts_with_str(&t, "https://") || starts_with_str(&t, "www.")
}

fn is_suspicious(c: char) -> (b: bool)
    ensures
        b == suspicious(c),
{
    (c < ' ' && c != '\t') || c == '\u{7f}' || c == '\u{2028}' || c == '\u{2029}' || c == '\u{200b}'
        || c == '\u{2060}'
}

/// The first suspicious control character of the line and its 1-based
/// column counted in UTF-8 bytes.
fn find_suspicious_control_char(line: &[char]) -> (r: Option<(char, u128)>)
    ensures
        match first_suspicious_from(line@, 0) {
            Some(k) => r matches Some((ch, col)) && ch == line@[k] && col == byte_len(line@.take(k)) + 1,
            None => r is None,
        },
{
    let mut i: usize = 0;
    let mut bytes: u128 = 0;
    while i < line.len()
        invariant
            i <= line@.len(),
            first_suspicious_from(line@, i as int) == first_suspicious_from(line@, 0),
            bytes == byte_len(line@.take(i as int)),
            bytes <= 4 * i,
        decreases line@.len() - i,
    {
        let c = line[i];
        if is_suspicious(c) {
            return Some((c, bytes + 1));
        }
        let n = char_utf8_len(c);
        bytes = bytes + n as u128;
        i = i + 1;
        assert(line@.take(i as int).drop_last() =~= line@.take(i - 1));
    }
    None
}

/// Case-insensitive check for a TODO or FIXME marker.
fn contains_marker(s: &[char]) -> (b: bool)
    ensures
        b == has_marker(s@),
{
    let l = to_ascii_lower(s);
    contains_str(&l, "todo") || contains_str(&l, "fixme")
}

/// Appends the note for the first suspicious character of `c`, if any.
fn push_control_note(notes: &mut Vec<Note>, c: &[char], line_no: usize) -> (found: bool)
    ensures
        found == (first_suspicious_from(c@, 0) is Some),
        note_views(final(notes)@) == note_views(old(notes)@) + control_notes(c@, line_no as nat),
{
    proof {
        lemma_first_suspicious(c@, 0);
    }
    let ctrl = find_suspicious_control_char(c);
    match ctrl {
        Some((ch, col)) => {
            let mut m: Vec<char> = Vec::new();
            push_str(&mut m, "Control character U+");
            push_hex4(&mut m, ch as u32);
            push_str(&mut m, " at col ");
            push_dec(&mut m, col);
            assert(m@ =~= control_msg(ch, col as nat));
            push_note(notes, line_no, "control_character", "warn", string_from_chars(&m));
            true
        },
        None => {
            assert(note_views(old(notes)@) + control_notes(c@, line_no as nat) =~= note_views(old(notes)@));
            false
        },
    }
}

/// Appends the line-length note.
fn push_length_note(notes: &mut Vec<Note>, line_no: usize, max_len: usize, len: usize)
    ensures
        note_views(final(notes)@) == note_views(old(notes)@) + seq![
            note(line_no as nat, "line_length"@, "info"@, length_msg(max_len as nat, len as nat)),
        ],
{
    let mut m: Vec<char> = Vec::new();
    push_str(&mut m, "Line exceeds ");
    push_dec(&mut m, max_len as u128);
    push_str(&mut m, " chars (");
    push_dec(&mut m, len as u128);
    push_str(&mut m, " chars)");
    assert(m@ =~= length_msg(max_len as nat, len as nat));
    push_note(notes, line_no, "line_length", "info", string_from_chars(&m));
}

/// The scan state carried between lines.
struct Scan {
    penalties: u128,
    saw_tab: bool,
    saw_space: bool,
    blanks: usize,
    last_non_blank: usize,
}

impl Scan {
    spec fn matches(&self, s: CleanScan) -> bool {
        &&& self.penalties == s.penalties
        &&& self.saw_tab == s.saw_tab
        &&& self.saw_space == s.saw_space
        &&& self.blanks == s.blanks
        &&& self.last_non_blank == s.last_non_blank
    }
}

/// Runs the checks of one line that do not depend on other lines,
/// appending their notes; returns the penalty count and whether the
/// indentation holds a tab and a space.
#[verifier::rlimit(40)]
fn check_line_issues(notes: &mut Vec<Note>, line: &[char], c: &[char], line_no: usize, max_len: usize) -> (r: (
    u128,
    bool,
    bool,
))
    requires
        c@ == strip_trailing_cr(line@),
    ensures
        r.0 == line_issues(line@, line_no as nat, max_len as nat).0,
        r.0 <= 5,
        r.1 == contains(indent_of(c@), "\t"@),
        r.2 == contains(indent_of(c@), " "@),
        note_views(final(notes)@) == note_views(old(notes)@) + line_issues(line@, line_no as nat, max_len as nat).1,
{
    let ghost ln = line_no as nat;
    let ghost base = note_views(notes@);
    let mut count: u128 = 0;
    let cr = ends_with_str(line, "\r");
    let ghost g1 = note_if(cr, note(ln, "carriage_return"@, "info"@, "Line ends with a CR; prefer LF-only"@));
    if cr {
        push_note(
            notes,
            line_no,
            "carriage_return",
            "info",
            String::from_str("Line ends with a CR; prefer LF-only"),
        );
        count = count + 1;
    }
    proof { lemma_note_if(base, cr, note(ln, "carriage_return"@, "info"@, "Line ends with a CR; prefer LF-only"@)); }
    assert(note_views(notes@) == base + g1);
    let ghost v1 = note_views(notes@);

    let tw = c.len() > 0 && (ends_with_str(c, " ") || ends_with_str(c, "\t"));
    let ghost g2 = note_if(tw, note(ln, "trailing_whitespace"@, "info"@, "Trailing whitespace detected"@));
    if tw {
        push_note(
            notes,
            line_no,
            "trailing_whitespace",
            "info",
            String::from_str("Trailing whitespace detected"),
        );
        count = count + 1;
    }
    proof { lemma_note_if(v1, tw, note(ln, "trailing_whitespace"@, "info"@, "Trailing whitespace detected"@)); }
    assert(note_views(notes@) == base + g1 + g2);
    let ghost v2 = note_views(notes@);

    let visible_len = c.len();
    let too_long = visible_len > max_len && !(IGNORE_URLS_FOR_LENGTH && is_mostly_single_url(c));
    let ghost g3 = note_if(too_long, note(ln, "line_length"@, "info"@, length_msg(max_len as nat, c@.len())));
    if too_long {
        push_length_note(notes, line_no, max_len, visible_len);
        count = count + 1;
    }
    proof { lemma_note_if(v2, too_long, note(ln, "line_length"@, "info"@, length_msg(max_len as nat, c@.len()))); }
    assert(note_views(notes@) == base + g1 + g2 + g3);
    let ghost v3 = note_views(notes@);

    let k = first_non_ws(c);
    let ind = copy_range(c, 0, k);
    assert(ind@ =~= indent_of(c@));
    let tab = contains_str(&ind, "\t");
    let space = contains_str(&ind, " ");
    let tab_issue = FLAG_TABS_IN_INDENT && tab;
    let ghost g4 = note_if(tab_issue, note(ln, "tab_indentation"@, "info"@, "Tab character found in indentation"@));
    if tab_issue {
        push_note(
            notes,
            line_no,
            "tab_indentation",
            "info",
            String::from_str("Tab character found in indentation"),
        );
        count = count + 1;
    }
    proof { lemma_note_if(v3, tab_issue, note(ln, "tab_indentation"@, "info"@, "Tab character found in indentation"@)); }
    assert(note_views(notes@) == base + g1 + g2 + g3 + g4);
    let ghost v4 = note_views(notes@);

    let ghost g5 = control_notes(c@, ln);
    if push_control_note(notes, c, line_no) {
        count = count + 1;
    }
    assert(note_views(notes@) == base + g1 + g2 + g3 + g4 + g5);
    let ghost v5 = note_views(notes@);

    let todo = contains_marker(c);
    let ghost g6 = note_if(todo, note(ln, "todo_marker"@, "info"@, "Found TODO/FIXME marker"@));
    if todo {
        push_note(notes, line_no, "todo_marker", "info", String::from_str("Found TODO/FIXME marker"));
    }
    proof { lemma_note_if(v5, todo, note(ln, "todo_marker"@, "info"@, "Found TODO/FIXME marker"@)); }
    assert(note_views(notes@) == base + g1 + g2 + g3 + g4 + g5 + g6);
    assert(line_issues(line@, ln, max_len as nat).1 == g1 + g2 + g3 + g4 + g5 + g6);
    assert(base + (g1 + g2 + g3 + g4 + g5 + g6) =~= base + g1 + g2 + g3 + g4 + g5 + g6);
    (count, tab, space)
}

/// Runs the checks of one line, appending its notes.
fn check_line(
    st: &mut Scan,
    line: &[char],
    line_no: usize,
    max_len: usize,
    notes: &mut Vec<Note>,
    Ghost(prev): Ghost<CleanScan>,
    Ghost(base): Ghost<Seq<NoteView>>,
)
    requires
        old(st).matches(prev),
        note_views(old(notes)@) == base + prev.notes,
        old(st).penalties <= 6 * (line_no - 1),
        old(st).blanks < line_no,
        old(st).last_non_blank < line_no,
        line_no >= 1,
    ensures
        final(st).matches(clean_step(prev, line@, line_no as nat, max_len as nat)),
        note_views(final(notes)@) == base + clean_step(prev, line@, line_no as nat, max_len as nat).notes,
        final(st).penalties <= 6 * line_no,
        final(st).blanks <= line_no,
        final(st).last_non_blank <= line_no,
{
    let ghost next = clean_step(prev, line@, line_no as nat, max_len as nat);
    let ghost issues = line_issues(line@, line_no as nat, max_len as nat);
    let c = strip_trailing_cr_chars(line);
    let (count, tab, space) = check_line_issues(notes, line, &c, line_no, max_len);
    st.penalties = st.penalties + count;
    if tab {
        st.saw_tab = true;
    }
    if space {
        st.saw_space = true;
    }
    assert(note_views(notes@) =~= base + prev.notes + issues.1);
    let trimmed = trim_chars(&c);
    let blank = trimmed.len() == 0;
    let excess = blank && st.blanks + 1 > MAX_CONSECUTIVE_BLANKS;
    let ghost g7 = note_if(excess, note(line_no as nat, "excess_blank_lines"@, "info"@, "Too many consecutive blank lines"@));
    if blank {
        st.blanks = st.blanks + 1;
        if st.blanks > MAX_CONSECUTIVE_BLANKS {
            push_note(
                notes,
                line_no,
                "excess_blank_lines",
                "info",
                String::from_str("Too many consecutive blank lines"),
            );
            st.penalties = st.penalties + 1;
        }
    } else {
        st.blanks = 0;
        st.last_non_blank = line_no;
    }
    assert(note_views(notes@) =~= base + prev.notes + issues.1 + g7);
    assert(next.notes =~= prev.notes + issues.1 + g7);
    assert(note_views(notes@) =~= base + next.notes);
}

/// The cleanliness score of `code` (0..=100, per-line normalized), with a
/// note appended for each issue found. `max_len` is the longest line, in
/// characters, that is not an issue.
/// Runs the line checks over every line of `content`; returns the final
/// scan state and the number of lines.
fn scan_lines(content: &[char], max_len: usize, notes: &mut Vec<Note>) -> (r: (Scan, usize))
    ensures
        r.1 == lines_of(content@).len(),
        r.0.matches(clean_scan(lines_of(content@), lines_of(content@).len(), max_len as nat)),
        r.0.penalties <= 6 * r.1,
        r.0.last_non_blank <= r.1,
        note_views(final(notes)@) == note_views(old(notes)@) + clean_scan(
            lines_of(content@),
            lines_of(content@).len(),
            max_len as nat,
        ).notes,
{
    let ghost head = note_views(notes@);
    let lines = split_lines(content);
    let ghost ls = lines_of(content@);
    let mut st = Scan { penalties: 0, saw_tab: false, saw_space: false, blanks: 0, last_non_blank: 0 };
    let mut i: usize = 0;
    assert(head + clean_scan(ls, 0, max_len as nat).notes =~= head);
    while i < lines.len()
        invariant
            texts(lines@) == ls,
            i <= lines@.len(),
            st.matches(clean_scan(ls, i as nat, max_len as nat)),
            note_views(notes@) == head + clean_scan(ls, i as nat, max_len as nat).notes,
            st.penalties <= 6 * i,
            st.blanks <= i,
            st.last_non_blank <= i,
        decreases lines@.len() - i,
    {
        assert(lines@[i as int]@ == ls[i as int]);
        check_line(
            &mut st,
            &lines[i],
            i + 1,
            max_len,
            notes,
            Ghost(clean_scan(ls, i as nat, max_len as nat)),
            Ghost(head),
        );
        i = i + 1;
    }
    (st, lines.len())
}

/// The cleanliness score of `code` (0..=100, per-line normalized), with a
/// note appended for each issue found. `max_len` is the longest line, in
/// characters, that is not an issue.
#[verifier::spinoff_prover]
#[verifier::rlimit(60)]
pub fn score_cleanliness(code: &str, max_len: usize, notes: &mut Vec<Note>) -> (s: u32)
    ensures
        s == cleanliness_score(code@, max_len as nat),
        s <= 100,
        note_views(final(notes)@) == note_views(old(notes)@) + cleanliness_findings(
            code@,
            max_len as nat,
        ).1,
{
    let ghost base = note_views(notes@);
    let ghost h1 = note_if(
        has_bom(code@),
        note(1, "bom_present"@, "info"@, "File starts with a UTF-8 BOM; prefer no BOM"@),
    );
    let ghost h2 = note_if(
        missing_final_newline(code@),
        note(0, "missing_final_newline"@, "info"@, "File does not end with a newline"@),
    );
    let chars = to_chars(code);
    let mut penalties: u128 = 0;

    // 0) byte-order mark
    let bom = chars.len() > 0 && chars[0] == '\u{feff}';
    let content = if bom {
        push_note(
            notes,
            1,
            "bom_present",
            "info",
            String::from_str("File starts with a UTF-8 BOM; prefer no BOM"),
        );
        penalties = penalties + 1;
        copy_range(&chars, 1, chars.len())
    } else {
        copy_range(&chars, 0, chars.len())
    };
    assert(content@ =~= body_of(code@));
    proof {
        lemma_note_if(base, has_bom(code@), note(1, "bom_present"@, "info"@, "File starts with a UTF-8 BOM; prefer no BOM"@));
    }
    let ghost v1 = note_views(notes@);

    // 1) final newline
    if chars.len() > 0 && !ends_with_str(&chars, "\n") {
        push_note(
            notes,
            0,
            "missing_final_newline",
            "info",
            String::from_str("File does not end with a newline"),
        );
        penalties = penalties + 1;
    }
    proof {
        lemma_note_if(v1, missing_final_newline(code@), note(0, "missing_final_newline"@, "info"@, "File does not end with a newline"@));
    }
    let ghost v2 = note_views(notes@);
    assert(v2 == base + h1 + h2);

    // 2..8) the line checks
    let (st, n) = scan_lines(&content, max_len, notes);
    let ghost sc = clean_scan(lines_of(body_of(code@)), n as nat, max_len as nat);
    let ghost h3 = note_if(n > sc.last_non_blank, note(n as nat, "trailing_blank_lines"@, "info"@, "Trailing blank lines at EOF"@));
    let ghost h4 = note_if(sc.saw_tab && sc.saw_space, note(0, "mixed_indentation"@, "warn"@, "Mixed tabs and spaces across file"@));
    let ghost v3 = note_views(notes@);
    assert(v3 == base + h1 + h2 + sc.notes);
    penalties = penalties + st.penalties;

    // 9) trailing blank lines
    if n > st.last_non_blank {
        push_note(notes, n, "trailing_blank_lines", "info", String::from_str("Trailing blank lines at EOF"));
        penalties = penalties + 1;
    }
    proof {
        lemma_note_if(v3, n > sc.last_non_blank, note(n as nat, "trailing_blank_lines"@, "info"@, "Trailing blank lines at EOF"@));
    }
    let ghost v4 = note_views(notes@);

    // 10) mixed indentation
    if st.saw_tab && st.saw_space {
        push_note(
            notes,
            0,
            "mixed_indentation",
            "warn",
            String::from_str("Mixed tabs and spaces across file"),
        );
        penalties = penalties + 2;
    }
    proof {
        lemma_note_if(v4, sc.saw_tab && sc.saw_space, note(0, "mixed_indentation"@, "warn"@, "Mixed tabs and spaces across file"@));
    }
    assert(note_views(notes@) == base + h1 + h2 + sc.notes + h3 + h4);
    assert(cleanliness_findings(code@, max_len as nat).1 == h1 + h2 + sc.notes + h3 + h4);
    assert(base + (h1 + h2 + sc.notes + h3 + h4) =~= base + h1 + h2 + sc.notes + h3 + h4);
    assert(penalties == cleanliness_findings(code@, max_len as nat).0);
    let total = split_lines(&chars).len();
    normalized_score(penalties, total)
}

} // verus!
