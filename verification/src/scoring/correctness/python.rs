//! Python heuristics: block statements without `:`, comparisons with
//! `None`, mixed indentation.
use crate::models::{lemma_note_if, note, note_if, note_views, push_note, Note, NoteView};
use crate::scoring::cleanliness::b2n;
use crate::text::{
    byte_len, char_utf8_len, contains, contains_str, copy_range, ends_with, ends_with_str, first_non_ws,
    lines_of, lower, skip_ws, split_lines, starts_with, starts_with_str, texts, to_ascii_lower, trim,
    trim_chars, trim_end, trim_end_chars,
};
use vstd::prelude::*;
use vstd::string::StringExecFns;

verus! {

/// The character index at which the first `b` UTF-8 bytes of `s` end, if
/// `b` falls on a character boundary.
pub open spec fn char_at_byte(s: Seq<char>, b: nat) -> Option<int> {
    if exists|k: int| 0 <= k <= s.len() && byte_len(s.take(k)) == b {
        Some(choose|k: int| 0 <= k <= s.len() && byte_len(s.take(k)) == b)
    } else {
        None
    }
}

/// A line whose leading whitespace, counted in characters, is a byte
/// offset on a character boundary: true of every line whose indentation is
/// ASCII. The Python check slices the line at that offset.
pub open spec fn indent_slice_ok(raw: Seq<char>) -> bool {
    trim(raw).len() == 0 || char_at_byte(raw, skip_ws(raw, 0) as nat) is Some
}

/// Every line of the text can be sliced as the Python check does.
pub open spec fn python_lines_ok(code: Seq<char>) -> bool {
    forall|k: int| 0 <= k < lines_of(code).len() ==> indent_slice_ok(#[trigger] lines_of(code)[k])
}

/// The text of a line after its leading whitespace, sliced by byte offset.
pub open spec fn after_indent(raw: Seq<char>) -> Seq<char> {
    match char_at_byte(raw, skip_ws(raw, 0) as nat) {
        Some(k) => trim_end(raw.skip(k)),
        None => Seq::empty(),
    }
}

/// A line that opens a Python block.
pub open spec fn py_block_start(t: Seq<char>) -> bool {
    ||| starts_with(t, "def "@)
    ||| starts_with(t, "class "@)
    ||| starts_with(t, "if "@)
    ||| starts_with(t, "elif "@)
    ||| starts_with(t, "else"@)
    ||| starts_with(t, "for "@)
    ||| starts_with(t, "while "@)
    ||| starts_with(t, "try"@)
    ||| starts_with(t, "except"@)
    ||| starts_with(t, "finally"@)
    ||| starts_with(t, "with "@)
    ||| starts_with(t, "match "@)
    ||| starts_with(t, "case "@)
}

/// The issues of one Python line: penalty and notes.
pub open spec fn py_line_issues(raw: Seq<char>, line_no: nat) -> (nat, Seq<NoteView>) {
    let t = after_indent(raw);
    if trim(raw).len() == 0 || starts_with(t, "#"@) {
        (0, Seq::empty())
    } else {
        let no_colon = py_block_start(t) && !ends_with(t, ":"@);
        let eq_none = contains(lower(t), "== none"@);
        let ne_none = contains(lower(t), "!= none"@);
        (
            3 * b2n(no_colon) + b2n(eq_none) + b2n(ne_none),
            note_if(
                no_colon,
                note(
                    line_no,
                    "py_missing_colon"@,
                    "warn"@,
                    "Python block statement appears to be missing a trailing ':'"@,
                ),
            ) + note_if(
                eq_none,
                note(line_no, "py_none_equality"@, "info"@, "Use 'is None' instead of '== None'"@),
            ) + note_if(
                ne_none,
                note(line_no, "py_none_inequality"@, "info"@, "Use 'is not None' instead of '!= None'"@),
            ),
        )
    }
}

/// A line opening a Python block (after its indentation it starts with
/// `def `, `class `, `if `, `elif `, `else`, `for `, `while `, `try`,
/// `except`, `finally`, `with `, `match ` or `case `) that does not end in
/// `:` costs 3 and gets a `py_missing_colon` note first; a line ending in
/// `:` never gets one.
pub proof fn lemma_python_missing_colon(raw: Seq<char>, line_no: nat)
    ensures
        ({
            let t = after_indent(raw);
            let r = py_line_issues(raw, line_no);
            &&& trim(raw).len() > 0 && (starts_with(t, "def "@) || starts_with(t, "class "@) || starts_with(t, "if "@) || starts_with(t, "elif "@) || starts_with(t, "else"@) || starts_with(t, "for "@) || starts_with(t, "while "@) || starts_with(t, "try"@) || starts_with(t, "except"@) || starts_with(t, "finally"@) || starts_with(t, "with "@) || starts_with(t, "match "@) || starts_with(t, "case "@)) && !ends_with(t, ":"@) ==> r.0 >= 3 && r.1.len() >= 1
                && r.1[0].kind == "py_missing_colon"@
            &&& ends_with(t, ":"@) ==> forall|j: int| 0 <= j < r.1.len() ==> (#[trigger] r.1[j]).kind
                != "py_missing_colon"@
        }),
{
    let t = after_indent(raw);
    reveal_strlit("def ");
    reveal_strlit("class ");
    reveal_strlit("if ");
    reveal_strlit("elif ");
    reveal_strlit("else");
    reveal_strlit("for ");
    reveal_strlit("while ");
    reveal_strlit("try");
    reveal_strlit("except");
    reveal_strlit("finally");
    reveal_strlit("with ");
    reveal_strlit("match ");
    reveal_strlit("case ");
    reveal_strlit("#");
    reveal_strlit("py_missing_colon");
    reveal_strlit("py_none_equality");
    reveal_strlit("py_none_inequality");
    assert("py_missing_colon"@[3] != "py_none_equality"@[3]);
    assert("py_missing_colon"@.len() != "py_none_inequality"@.len());
    if starts_with(t, "def "@) {
        assert(t.subrange(0, 4)[0] == t[0]);
    }
    if starts_with(t, "class "@) {
        assert(t.subrange(0, 6)[0] == t[0]);
    }
    if starts_with(t, "if "@) {
        assert(t.subrange(0, 3)[0] == t[0]);
    }
    if starts_with(t, "elif "@) {
        assert(t.subrange(0, 5)[0] == t[0]);
    }
    if starts_with(t, "else"@) {
        assert(t.subrange(0, 4)[0] == t[0]);
    }
    if starts_with(t, "for "@) {
        assert(t.subrange(0, 4)[0] == t[0]);
    }
    if starts_with(t, "while "@) {
        assert(t.subrange(0, 6)[0] == t[0]);
    }
    if starts_with(t, "try"@) {
        assert(t.subrange(0, 3)[0] == t[0]);
    }
    if starts_with(t, "except"@) {
        assert(t.subrange(0, 6)[0] == t[0]);
    }
    if starts_with(t, "finally"@) {
        assert(t.subrange(0, 7)[0] == t[0]);
    }
    if starts_with(t, "with "@) {
        assert(t.subrange(0, 5)[0] == t[0]);
    }
    if starts_with(t, "match "@) {
        assert(t.subrange(0, 6)[0] == t[0]);
    }
    if starts_with(t, "case "@) {
        assert(t.subrange(0, 5)[0] == t[0]);
    }
    if starts_with(t, "#"@) {
        assert(t.subrange(0, 1)[0] == t[0]);
    }
}

/// The indentation of a non-blank line holds a tab (or a space).
pub open spec fn indent_has(raw: Seq<char>, c: Seq<char>) -> bool {
    trim(raw).len() > 0 && contains(raw.take(skip_ws(raw, 0)), c)
}

/// Penalty and notes of the first `n` lines.
pub open spec fn py_scan(lines: Seq<Seq<char>>, n: nat) -> (nat, Seq<NoteView>)
    decreases n,
{
    if n == 0 {
        (0, Seq::empty())
    } else {
        let prev = py_scan(lines, (n - 1) as nat);
        let li = py_line_issues(lines[n - 1], n);
        (prev.0 + li.0, prev.1 + li.1)
    }
}

/// Some non-blank line among the first `n` has the character in its
/// indentation.
pub open spec fn any_indent_has(lines: Seq<Seq<char>>, n: nat, c: Seq<char>) -> bool
    decreases n,
{
    if n == 0 {
        false
    } else {
        any_indent_has(lines, (n - 1) as nat, c) || indent_has(lines[n - 1], c)
    }
}

/// The Python findings of a text: penalty and notes.
pub open spec fn python_findings(code: Seq<char>) -> (nat, Seq<NoteView>) {
    let lines = lines_of(code);
    let s = py_scan(lines, lines.len());
    let mixed = any_indent_has(lines, lines.len(), "\t"@) && any_indent_has(lines, lines.len(), " "@);
    (
        s.0 + 3 * b2n(mixed),
        s.1 + note_if(
            mixed,
            note(
                0,
                "py_mixed_indentation"@,
                "warn"@,
                "File mixes tabs and spaces in indentation; pick one (PEP8 recommends 4 spaces)"@,
            ),
        ),
    )
}

/// The character index whose byte offset in `s` is `b`, if any.
fn char_index_at_byte(s: &[char], b: usize) -> (r: Option<usize>)
    ensures
        r matches Some(k) ==> char_at_byte(s@, b as nat) == Some(k as int) && k <= s@.len(),
        r is None ==> char_at_byte(s@, b as nat) is None,
{
    let mut k: usize = 0;
    let mut off: u128 = 0;
    while k < s.len() && off < b as u128
        invariant
            k <= s@.len(),
            off == byte_len(s@.take(k as int)),
            off <= 4 * k,
            forall|m: int| 0 <= m < k ==> byte_len(s@.take(m)) < b,
        decreases s@.len() - k,
    {
        let n = char_utf8_len(s[k]);
        off = off + n as u128;
        k = k + 1;
        assert(s@.take(k as int).drop_last() =~= s@.take(k - 1));
    }
    proof {
        lemma_byte_len_mono(s@);
    }
    if off == b as u128 {
        proof {
            assert(byte_len(s@.take(k as int)) == b);
            let c = choose|m: int| 0 <= m <= s@.len() && byte_len(s@.take(m)) == b;
            if c < k {
                assert(byte_len(s@.take(c)) < b);
            } else if c > k {
                assert(byte_len(s@.take(c)) > byte_len(s@.take(k as int)));
            }
        }
        Some(k)
    } else {
        proof {
            assert forall|m: int| 0 <= m <= s@.len() implies byte_len(s@.take(m)) != b by {
                if m > k {
                    assert(byte_len(s@.take(m)) > byte_len(s@.take(k as int)));
                }
            }
        }
        None
    }
}

/// Byte offsets grow strictly with the character index.
proof fn lemma_byte_len_mono(s: Seq<char>)
    ensures
        forall|a: int, b: int| 0 <= a < b <= s.len() ==> byte_len(s.take(a)) < byte_len(s.take(b)),
{
    assert forall|a: int, b: int| 0 <= a < b <= s.len() implies byte_len(s.take(a)) < byte_len(s.take(b)) by {
        lemma_byte_len_step(s, a, b);
    }
}

proof fn lemma_byte_len_step(s: Seq<char>, a: int, b: int)
    requires
        0 <= a < b <= s.len(),
    ensures
        byte_len(s.take(a)) < byte_len(s.take(b)),
    decreases b - a,
{
    assert(s.take(b).drop_last() =~= s.take(b - 1));
    if a < b - 1 {
        lemma_byte_len_step(s, a, b - 1);
    }
}

/// Whether each line can be sliced at its indentation as the Python check
/// does: the check slices a line by the count of its leading whitespace
/// characters used as a byte offset, which is refused off a character
/// boundary.
pub fn python_indent_slicing_ok(code: &str) -> (b: bool)
    ensures
        b == python_lines_ok(code@),
{
    let chars = crate::text::to_chars(code);
    let lines = split_lines(&chars);
    let ghost ls = lines_of(code@);
    let mut i: usize = 0;
    while i < lines.len()
        invariant
            texts(lines@) == ls,
            ls == lines_of(code@),
            i <= lines@.len(),
            forall|k: int| 0 <= k < i ==> indent_slice_ok(#[trigger] ls[k]),
        decreases lines@.len() - i,
    {
        assert(lines@[i as int]@ == ls[i as int]);
        let raw = &lines[i];
        if trim_chars(raw).len() > 0 {
            let n = first_non_ws(raw);
            if char_index_at_byte(raw, n).is_none() {
                assert(!indent_slice_ok(ls[i as int]));
                assert(!indent_slice_ok(lines_of(code@)[i as int]));
                return false;
            }
        }
        i = i + 1;
    }
    true
}

/// The issues of one line; returns the penalty and whether its indentation
/// holds a tab and a space.
fn py_line(notes: &mut Vec<Note>, raw: &[char], line_no: usize) -> (r: (u128, bool, bool))
    requires
        indent_slice_ok(raw@),
    ensures
        r.0 == py_line_issues(raw@, line_no as nat).0,
        r.0 <= 5,
        r.1 == indent_has(raw@, "\t"@),
        r.2 == indent_has(raw@, " "@),
        note_views(final(notes)@) == note_views(old(notes)@) + py_line_issues(raw@, line_no as nat).1,
{
    let ghost base = note_views(notes@);
    if trim_chars(raw).len() == 0 {
        assert(base + py_line_issues(raw@, line_no as nat).1 =~= base);
        return (0, false, false);
    }
    let indent_len = first_non_ws(raw);
    let indent = copy_range(raw, 0, indent_len);
    assert(indent@ =~= raw@.take(skip_ws(raw@, 0)));
    let tab = contains_str(&indent, "\t");
    let space = contains_str(&indent, " ");
    let k = match char_index_at_byte(raw, indent_len) {
        Some(k) => k,
        None => {
            return (0, tab, space);
        },
    };
    let rest = copy_range(raw, k, raw.len());
    assert(rest@ =~= raw@.skip(k as int));
    let t = trim_end_chars(&rest);
    if starts_with_str(&t, "#") {
        assert(base + py_line_issues(raw@, line_no as nat).1 =~= base);
        return (0, tab, space);
    }
    let mut p: u128 = 0;
    let no_colon = (starts_with_str(&t, "def ") || starts_with_str(&t, "class ") || starts_with_str(
        &t,
        "if ",
    ) || starts_with_str(&t, "elif ") || starts_with_str(&t, "else") || starts_with_str(&t, "for ")
        || starts_with_str(&t, "while ") || starts_with_str(&t, "try") || starts_with_str(&t, "except")
        || starts_with_str(&t, "finally") || starts_with_str(&t, "with ") || starts_with_str(&t, "match ")
        || starts_with_str(&t, "case ")) && !ends_with_str(&t, ":");
    let ghost ln = line_no as nat;
    if no_colon {
        push_note(
            notes,
            line_no,
            "py_missing_colon",
            "warn",
            String::from_str("Python block statement appears to be missing a trailing ':'"),
        );
        p = p + 3;
    }
    proof {
        lemma_note_if(
            base,
            no_colon,
            note(ln, "py_missing_colon"@, "warn"@, "Python block statement appears to be missing a trailing ':'"@),
        );
    }
    let ghost v1 = note_views(notes@);
    let lower_t = to_ascii_lower(&t);
    let eq_none = contains_str(&lower_t, "== none");
    if eq_none {
        push_note(notes, line_no, "py_none_equality", "info", String::from_str("Use 'is None' instead of '== None'"));
        p = p + 1;
    }
    proof {
        lemma_note_if(v1, eq_none, note(ln, "py_none_equality"@, "info"@, "Use 'is None' instead of '== None'"@));
    }
    let ghost v2 = note_views(notes@);
    let ne_none = contains_str(&lower_t, "!= none");
    if ne_none {
        push_note(
            notes,
            line_no,
            "py_none_inequality",
            "info",
            String::from_str("Use 'is not None' instead of '!= None'"),
        );
        p = p + 1;
    }
    proof {
        lemma_note_if(
            v2,
            ne_none,
            note(ln, "py_none_inequality"@, "info"@, "Use 'is not None' instead of '!= None'"@),
        );
    }
    let ghost li = py_line_issues(raw@, ln);
    assert(t@ == after_indent(raw@));
    assert(note_views(notes@) =~= base + li.1);
    (p, tab, space)
}

/// Python checks: block statements without a trailing `:`, `== None` and
/// `!= None`, tabs and spaces mixed in indentation. Appends a note per
/// issue; returns the penalty.
pub fn check_python_blocks_and_common_pitfalls(code: &[char], notes: &mut Vec<Note>) -> (p: u128)
    requires
        python_lines_ok(code@),
    ensures
        p <= 0x40_0000_0000_0000_0000,
        p == python_findings(code@).0,
        note_views(final(notes)@) == note_views(old(notes)@) + python_findings(code@).1,
{
    let ghost base = note_views(notes@);
    let lines = split_lines(code);
    let ghost ls = lines_of(code@);
    let mut p: u128 = 0;
    let mut saw_tab = false;
    let mut saw_space = false;
    let mut i: usize = 0;
    assert(base + py_scan(ls, 0).1 =~= base);
    while i < lines.len()
        invariant
            texts(lines@) == ls,
            i <= lines@.len(),
            python_lines_ok(code@),
            ls == lines_of(code@),
            p == py_scan(ls, i as nat).0,
            p <= 5 * i,
            saw_tab == any_indent_has(ls, i as nat, "\t"@),
            saw_space == any_indent_has(ls, i as nat, " "@),
            note_views(notes@) == base + py_scan(ls, i as nat).1,
        decreases lines@.len() - i,
    {
        assert(lines@[i as int]@ == ls[i as int]);
        assert(indent_slice_ok(ls[i as int]));
        let (q, tab, space) = py_line(notes, &lines[i], i + 1);
        if tab {
            saw_tab = true;
        }
        if space {
            saw_space = true;
        }
        p = p + q;
        i = i + 1;
    }
    let mixed = saw_tab && saw_space;
    let ghost g = note_if(
        mixed,
        note(0, "py_mixed_indentation"@, "warn"@, "File mixes tabs and spaces in indentation; pick one (PEP8 recommends 4 spaces)"@),
    );
    let ghost v = note_views(notes@);
    if mixed {
        push_note(
            notes,
            0,
            "py_mixed_indentation",
            "warn",
            String::from_str("File mixes tabs and spaces in indentation; pick one (PEP8 recommends 4 spaces)"),
        );
        p = p + 3;
    }
    proof {
        lemma_note_if(
            v,
            mixed,
            note(0, "py_mixed_indentation"@, "warn"@, "File mixes tabs and spaces in indentation; pick one (PEP8 recommends 4 spaces)"@),
        );
    }
    assert(note_views(notes@) =~= base + python_findings(code@).1);
    p
}

} // verus!
