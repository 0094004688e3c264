//! Bracket balance, aware of strings and comments of JavaScript/CSS or
//! Python.
use crate::models::{note, note_views, push_note, Note, NoteView};
use crate::text::{
    contains, dec, is_ascii_alpha, lemma_next_nl, lower, next_nl, next_newline, push_dec, push_str,
    string_from_chars, to_ascii_lower, copy_range, contains_str,
};
use vstd::prelude::*;

verus! {

/// How strings and comments are recognized.
#[derive(Clone, Copy, PartialEq, Eq, Structural)]
pub enum BracketMode {
    JsCss,
    Python,
}

/// The string being read: a JavaScript/CSS string delimited by a quote or
/// backtick, or a Python string with its quote, whether it is
/// triple-quoted and whether it is raw (escapes not honoured).
#[derive(Clone, Copy, PartialEq, Eq, Structural)]
pub enum StrState {
    Js(char),
    Py { quote: char, triple: bool, raw: bool },
}

/// An open bracket and where it was opened.
pub struct Br {
    pub ch: char,
    pub line: nat,
    pub col: nat,
}

/// The scan state.
pub struct BrScan {
    pub i: int,
    pub line: nat,
    pub col: nat,
    pub in_str: Option<StrState>,
    pub in_ml: bool,
    pub last: Option<char>,
    pub stack: Seq<Br>,
    pub penalties: nat,
    pub notes: Seq<NoteView>,
}

/// Number of backslashes just before `j`.
pub open spec fn backslashes_before(b: Seq<char>, j: int) -> nat
    decreases j,
{
    if j <= 0 || j > b.len() || b[j - 1] != '\\' {
        0
    } else {
        1 + backslashes_before(b, j - 1)
    }
}

/// The character at `i` is escaped: an odd number of backslashes precede it.
pub open spec fn escaped(b: Seq<char>, i: int) -> bool {
    backslashes_before(b, i) % 2 == 1
}

/// Start of the run of ASCII letters that ends at `j`.
pub open spec fn alpha_start(b: Seq<char>, j: int) -> int
    decreases j,
{
    if j <= 0 || j > b.len() || !is_ascii_alpha(b[j - 1]) {
        j
    } else {
        alpha_start(b, j - 1)
    }
}

/// The letters just before the quote at `i` make a raw string prefix (hold
/// an `r` in any case).
pub open spec fn raw_prefix(b: Seq<char>, i: int) -> bool {
    contains(lower(b.subrange(alpha_start(b, i), i)), "r"@)
}

/// The opening bracket that `c` closes.
pub open spec fn pairs(open: char, close: char) -> bool {
    (open == '{' && close == '}') || (open == '(' && close == ')') || (open == '[' && close == ']')
}

pub open spec fn mismatch_msg(c: char, top: Br) -> Seq<char> {
    "Found '"@ + seq![c] + "' but last open was '"@ + seq![top.ch] + "' (opened at line "@ + dec(top.line)
        + ", col "@ + dec(top.col) + ")"@
}

pub open spec fn stray_msg(c: char, col: nat) -> Seq<char> {
    "Stray closing '"@ + seq![c] + "' at col "@ + dec(col)
}

pub open spec fn unclosed_msg(br: Br) -> Seq<char> {
    "Unclosed '"@ + seq![br.ch] + "' opened at line "@ + dec(br.line) + ", col "@ + dec(br.col)
}

/// A character outside strings and comments, at line `line` and column
/// `col`: opening brackets are pushed; a closing bracket pops and must
/// match, or is stray.
pub open spec fn bracket_effect(st: BrScan, c: char, line: nat, col: nat) -> BrScan {
    let moved = BrScan { i: st.i + 1, col, last: Some(c), ..st };
    if c == '{' || c == '(' || c == '[' {
        BrScan { stack: st.stack.push(Br { ch: c, line, col }), ..moved }
    } else if c == '}' || c == ')' || c == ']' {
        if st.stack.len() > 0 {
            let top = st.stack.last();
            if pairs(top.ch, c) {
                BrScan { stack: st.stack.drop_last(), ..moved }
            } else {
                BrScan {
                    stack: st.stack.drop_last(),
                    penalties: st.penalties + 6,
                    notes: st.notes + seq![note(line, "bracket_mismatch"@, "warn"@, mismatch_msg(c, top))],
                    ..moved
                }
            }
        } else {
            BrScan {
                penalties: st.penalties + 6,
                notes: st.notes + seq![note(line, "stray_closing_bracket"@, "warn"@, stray_msg(c, col))],
                ..moved
            }
        }
    } else {
        moved
    }
}

/// One step of the scan at `st.i < b.len()`.
pub open spec fn br_step(b: Seq<char>, mode: BracketMode, st: BrScan) -> BrScan {
    let i = st.i;
    let c = b[i];
    let col = st.col + 1;
    if c == '\n' {
        BrScan { i: i + 1, line: st.line + 1, col: 0, last: Some(c), ..st }
    } else {
        match st.in_str {
            Some(StrState::Js(q)) => BrScan {
                i: i + 1,
                col,
                last: Some(c),
                in_str: if c == q && !escaped(b, i) { None } else { st.in_str },
                ..st
            },
            Some(StrState::Py { quote, triple, raw }) => if triple {
                if c == quote && i + 2 < b.len() && b[i + 1] == quote && b[i + 2] == quote {
                    BrScan { i: i + 3, col: col + 2, last: Some(quote), in_str: None, ..st }
                } else {
                    BrScan { i: i + 1, col, last: Some(c), ..st }
                }
            } else {
                BrScan {
                    i: i + 1,
                    col,
                    last: Some(c),
                    in_str: if c == quote && (raw || !escaped(b, i)) { None } else { st.in_str },
                    ..st
                }
            },
            None => match mode {
                BracketMode::JsCss => if st.in_ml {
                    BrScan {
                        i: i + 1,
                        col,
                        last: Some(c),
                        in_ml: !(st.last == Some('*') && c == '/'),
                        ..st
                    }
                } else if st.last == Some('/') && c == '/' {
                    BrScan { i: next_nl(b, i), col, last: Some('/'), ..st }
                } else if st.last == Some('/') && c == '*' {
                    BrScan { i: i + 1, col, last: Some('*'), in_ml: true, ..st }
                } else if c == '\'' || c == '"' || c == '`' {
                    BrScan { i: i + 1, col, last: Some(c), in_str: Some(StrState::Js(c)), ..st }
                } else {
                    bracket_effect(st, c, st.line, col)
                },
                BracketMode::Python => if c == '#' {
                    BrScan { i: next_nl(b, i), col, last: Some('#'), ..st }
                } else if c == '\'' || c == '"' {
                    let raw = raw_prefix(b, i);
                    if i + 2 < b.len() && b[i + 1] == c && b[i + 2] == c {
                        BrScan {
                            i: i + 3,
                            col: col + 2,
                            last: Some(c),
                            in_str: Some(StrState::Py { quote: c, triple: true, raw }),
                            ..st
                        }
                    } else {
                        BrScan {
                            i: i + 1,
                            col,
                            last: Some(c),
                            in_str: Some(StrState::Py { quote: c, triple: false, raw }),
                            ..st
                        }
                    }
                } else {
                    bracket_effect(st, c, st.line, col)
                },
            },
        }
    }
}

/// Each step moves forward, never past the end.
pub proof fn lemma_br_step(b: Seq<char>, mode: BracketMode, st: BrScan)
    requires
        0 <= st.i < b.len(),
    ensures
        st.i < br_step(b, mode, st).i <= b.len(),
{
    lemma_next_nl(b, st.i);
}

/// The scan from `st` to the end of the text.
pub open spec fn br_run(b: Seq<char>, mode: BracketMode, st: BrScan) -> BrScan
    decreases b.len() - st.i,
{
    if st.i < 0 || st.i >= b.len() {
        st
    } else {
        proof {
            lemma_br_step(b, mode, st);
        }
        br_run(b, mode, br_step(b, mode, st))
    }
}

/// Notes for the brackets still open at the end, in the order opened.
pub open spec fn unclosed_notes(stack: Seq<Br>) -> Seq<NoteView> {
    Seq::new(stack.len(), |k: int| note(stack[k].line, "unclosed_bracket"@, "warn"@, unclosed_msg(stack[k])))
}

/// Penalty and notes of the bracket check.
pub open spec fn bracket_findings(b: Seq<char>, mode: BracketMode) -> (nat, Seq<NoteView>) {
    let end = br_run(
        b,
        mode,
        BrScan {
            i: 0,
            line: 1,
            col: 0,
            in_str: None,
            in_ml: false,
            last: None,
            stack: Seq::empty(),
            penalties: 0,
            notes: Seq::empty(),
        },
    );
    (end.penalties + 6 * end.stack.len(), end.notes + unclosed_notes(end.stack))
}

/// Text that opens no string or comment in either mode: no quote, backtick,
/// slash or `#`.
pub open spec fn plain_text(b: Seq<char>) -> bool {
    forall|k: int|
        0 <= k < b.len() ==> !(#[trigger] b[k] == '\'' || b[k] == '"' || b[k] == '`' || b[k] == '/'
            || b[k] == '#')
}

pub open spec fn opening_bracket(c: char) -> bool {
    c == '(' || c == '[' || c == '{'
}

pub open spec fn closing_bracket(c: char) -> bool {
    c == ')' || c == ']' || c == '}'
}

/// Opening brackets from index `i` on.
pub open spec fn openers_from(b: Seq<char>, i: int) -> nat
    decreases b.len() - i,
{
    if i < 0 || i >= b.len() {
        0
    } else {
        (if opening_bracket(b[i]) {
            1nat
        } else {
            0nat
        }) + openers_from(b, i + 1)
    }
}

/// Closing brackets from index `i` on.
pub open spec fn closers_from(b: Seq<char>, i: int) -> nat
    decreases b.len() - i,
{
    if i < 0 || i >= b.len() {
        0
    } else {
        (if closing_bracket(b[i]) {
            1nat
        } else {
            0nat
        }) + closers_from(b, i + 1)
    }
}

/// The scan of plain text from `st`: without closing brackets every
/// opening bracket stays open and nothing is reported; without opening
/// brackets (and none open) every closing bracket is reported stray.
proof fn lemma_plain_run(b: Seq<char>, mode: BracketMode, st: BrScan)
    requires
        plain_text(b),
        0 <= st.i <= b.len(),
        st.in_str is None,
        !st.in_ml,
        st.last != Some('/'),
    ensures
        ({
            let e = br_run(b, mode, st);
            &&& closers_from(b, st.i) == 0 ==> e.penalties == st.penalties && e.notes == st.notes
                && e.stack.len() == st.stack.len() + openers_from(b, st.i)
            &&& openers_from(b, st.i) == 0 && st.stack.len() == 0 ==> {
                &&& e.stack.len() == 0
                &&& e.penalties == st.penalties + 6 * closers_from(b, st.i)
                &&& e.notes.len() == st.notes.len() + closers_from(b, st.i)
                &&& e.notes.take(st.notes.len() as int) == st.notes
                &&& forall|k: int|
                    st.notes.len() <= k < e.notes.len() ==> (#[trigger] e.notes[k]).kind
                        == "stray_closing_bracket"@
            }
        }),
    decreases b.len() - st.i,
{
    if st.i < b.len() {
        let c = b[st.i];
        assert(!(c == '\'' || c == '"' || c == '`' || c == '/' || c == '#'));
        let st2 = br_step(b, mode, st);
        assert(st2.i == st.i + 1);
        assert(st2.in_str is None && !st2.in_ml && st2.last != Some('/'));
        lemma_plain_run(b, mode, st2);
        let e = br_run(b, mode, st2);
        assert(br_run(b, mode, st) == e);
        if openers_from(b, st.i) == 0 && st.stack.len() == 0 {
            assert(st2.stack.len() == 0);
            if closing_bracket(c) {
                assert(st2.notes == st.notes.push(
                    note(st.line, "stray_closing_bracket"@, "warn"@, stray_msg(c, st.col + 1)),
                ));
                assert(e.notes.take(st2.notes.len() as int) == st2.notes);
                assert(e.notes.take(st.notes.len() as int) =~= st2.notes.take(st.notes.len() as int));
                assert forall|k: int| st.notes.len() <= k < e.notes.len() implies (#[trigger] e.notes[k]).kind
                    == "stray_closing_bracket"@ by {
                    if k == st.notes.len() {
                        assert(e.notes[k] == e.notes.take(st2.notes.len() as int)[k]);
                    }
                }
            } else {
                assert(st2.notes == st.notes);
            }
        }
    } else {
        assert(st.notes.take(st.notes.len() as int) =~= st.notes);
    }
}

/// The initial state of the bracket scan.
pub open spec fn br_start() -> BrScan {
    BrScan {
        i: 0,
        line: 1,
        col: 0,
        in_str: None,
        in_ml: false,
        last: None,
        stack: Seq::empty(),
        penalties: 0,
        notes: Seq::empty(),
    }
}

/// Outside strings and comments, every opening bracket of the three kinds
/// `(`, `[` and `{` that is never closed costs 6 and gets one
/// `unclosed_bracket` note: in a text with no quote, slash, `#` or closing
/// bracket, the penalty is 6 per opening bracket and the notes are one
/// `unclosed_bracket` note each.
pub proof fn lemma_unclosed_brackets(b: Seq<char>, mode: BracketMode)
    requires
        plain_text(b),
        closers_from(b, 0) == 0,
    ensures
        bracket_findings(b, mode).0 == 6 * openers_from(b, 0),
        bracket_findings(b, mode).1.len() == openers_from(b, 0),
        forall|k: int|
            0 <= k < bracket_findings(b, mode).1.len() ==> (#[trigger] bracket_findings(b, mode).1[k]).kind
                == "unclosed_bracket"@,
{
    lemma_plain_run(b, mode, br_start());
    let e = br_run(b, mode, br_start());
    assert(bracket_findings(b, mode).1 =~= unclosed_notes(e.stack));
}

/// Every closing bracket of the three kinds `)`, `]` and `}` with nothing
/// open costs 6 and gets one `stray_closing_bracket` note: in a text with no
/// quote, slash, `#` or opening bracket, the penalty is 6 per closing
/// bracket and the notes are one `stray_closing_bracket` note each.
pub proof fn lemma_stray_brackets(b: Seq<char>, mode: BracketMode)
    requires
        plain_text(b),
        openers_from(b, 0) == 0,
    ensures
        bracket_findings(b, mode).0 == 6 * closers_from(b, 0),
        bracket_findings(b, mode).1.len() == closers_from(b, 0),
        forall|k: int|
            0 <= k < bracket_findings(b, mode).1.len() ==> (#[trigger] bracket_findings(b, mode).1[k]).kind
                == "stray_closing_bracket"@,
{
    lemma_plain_run(b, mode, br_start());
    let e = br_run(b, mode, br_start());
    assert(unclosed_notes(e.stack) =~= Seq::<NoteView>::empty());
    assert(bracket_findings(b, mode).1 =~= e.notes);
}

/// No bracket of any kind in `b` from `i` to `j`.
pub open spec fn bracket_free(b: Seq<char>, i: int, j: int) -> bool {
    forall|k: int| i <= k < j ==> !opening_bracket(#[trigger] b[k]) && !closing_bracket(b[k])
}

/// Scanning bracket-free plain text changes no stack, penalty or note:
/// returns the state reached at `j`, from which the rest of the scan goes
/// on as from `st`.
proof fn lemma_skip_plain(b: Seq<char>, mode: BracketMode, st: BrScan, j: int) -> (r: BrScan)
    requires
        plain_text(b),
        0 <= st.i <= j <= b.len(),
        bracket_free(b, st.i, j),
        st.in_str is None,
        !st.in_ml,
        st.last != Some('/'),
    ensures
        r.i == j,
        r.stack == st.stack,
        r.penalties == st.penalties,
        r.notes == st.notes,
        r.in_str is None,
        !r.in_ml,
        r.last != Some('/'),
        br_run(b, mode, r) == br_run(b, mode, st),
    decreases j - st.i,
{
    if st.i == j {
        st
    } else {
        let c = b[st.i];
        assert(!(c == '\'' || c == '"' || c == '`' || c == '/' || c == '#'));
        assert(!opening_bracket(c) && !closing_bracket(c));
        let st2 = br_step(b, mode, st);
        assert(st2.i == st.i + 1);
        lemma_skip_plain(b, mode, st2, j)
    }
}

/// A pair of brackets in otherwise bracket-free plain text: a `(` closed by
/// `)`, `[` by `]` or `{` by `}` gives no finding; any other pair costs 6
/// with one `bracket_mismatch` note.
pub proof fn lemma_bracket_pair(
    u: Seq<char>,
    v: Seq<char>,
    w: Seq<char>,
    o: char,
    c: char,
    mode: BracketMode,
)
    requires
        plain_text(u + seq![o] + v + seq![c] + w),
        bracket_free(u, 0, u.len() as int),
        bracket_free(v, 0, v.len() as int),
        bracket_free(w, 0, w.len() as int),
        opening_bracket(o),
        closing_bracket(c),
    ensures
        ({
            let f = bracket_findings(u + seq![o] + v + seq![c] + w, mode);
            let matching = (o == '(' && c == ')') || (o == '[' && c == ']') || (o == '{' && c == '}');
            &&& matching ==> f.0 == 0 && f.1.len() == 0
            &&& !matching ==> f.0 == 6 && f.1.len() == 1 && f.1[0].kind == "bracket_mismatch"@
        }),
{
    let b = u + seq![o] + v + seq![c] + w;
    let p = u.len() as int;
    let q = p + 1 + v.len();
    assert(b[p] == o);
    assert(b[q] == c);
    assert(bracket_free(b, 0, p)) by {
        assert forall|k: int| 0 <= k < p implies !opening_bracket(#[trigger] b[k]) && !closing_bracket(b[k]) by {
            assert(b[k] == u[k]);
        }
    }
    assert(bracket_free(b, p + 1, q)) by {
        assert forall|k: int| p + 1 <= k < q implies !opening_bracket(#[trigger] b[k]) && !closing_bracket(b[k]) by {
            assert(b[k] == v[k - p - 1]);
        }
    }
    assert(bracket_free(b, q + 1, b.len() as int)) by {
        assert forall|k: int| q + 1 <= k < b.len() implies !opening_bracket(#[trigger] b[k]) && !closing_bracket(b[k]) by {
            assert(b[k] == w[k - q - 1]);
        }
    }
    assert(!(o == '\'' || o == '"' || o == '`' || o == '/' || o == '#'));
    assert(!(c == '\'' || c == '"' || c == '`' || c == '/' || c == '#'));
    let s1 = lemma_skip_plain(b, mode, br_start(), p);
    let s2 = br_step(b, mode, s1);
    assert(s2.i == p + 1 && s2.stack.len() == 1 && s2.stack[0].ch == o);
    let s3 = lemma_skip_plain(b, mode, s2, q);
    let s4 = br_step(b, mode, s3);
    assert(s4.i == q + 1 && s4.stack.len() == 0);
    let s5 = lemma_skip_plain(b, mode, s4, b.len() as int);
    assert(br_run(b, mode, s5) == s5);
    assert(br_run(b, mode, s3) == br_run(b, mode, s4));
    assert(br_run(b, mode, s1) == br_run(b, mode, s2));
    assert(bracket_findings(b, mode).1 =~= s5.notes + unclosed_notes(s5.stack));
    assert(unclosed_notes(s5.stack) =~= Seq::<NoteView>::empty());
}

/* ---------- executable scan ---------- */

/// An open bracket as the scan keeps it.
struct OpenBr {
    ch: char,
    line: usize,
    col: usize,
}

impl OpenBr {
    spec fn br(&self) -> Br {
        Br { ch: self.ch, line: self.line as nat, col: self.col as nat }
    }
}

spec fn brs(v: Seq<OpenBr>) -> Seq<Br> {
    Seq::new(v.len(), |k: int| v[k].br())
}

/// Whether an odd number of backslashes precede index `i`.
fn is_escaped(b: &[char], i: usize) -> (r: bool)
    requires
        i <= b@.len(),
    ensures
        r == escaped(b@, i as int),
{
    let mut esc = false;
    let mut j = i;
    while j > 0 && b[j - 1] == '\\'
        invariant
            j <= i <= b@.len(),
            (backslashes_before(b@, j as int) % 2 == 1) != esc == escaped(b@, i as int),
        decreases j,
    {
        esc = !esc;
        j = j - 1;
    }
    esc
}

/// Whether the letters before the quote at `i` hold an `r`.
fn has_raw_prefix(b: &[char], i: usize) -> (r: bool)
    requires
        i <= b@.len(),
    ensures
        r == raw_prefix(b@, i as int),
{
    let mut j = i;
    while j > 0 && (('A' <= b[j - 1] && b[j - 1] <= 'Z') || ('a' <= b[j - 1] && b[j - 1] <= 'z'))
        invariant
            j <= i <= b@.len(),
            alpha_start(b@, j as int) == alpha_start(b@, i as int),
        decreases j,
    {
        j = j - 1;
    }
    let prefix = copy_range(b, j, i);
    let p = to_ascii_lower(&prefix);
    contains_str(&p, "r")
}

fn push_mismatch_note(notes: &mut Vec<Note>, c: char, top: &OpenBr, line: usize)
    ensures
        note_views(final(notes)@) == note_views(old(notes)@) + seq![
            note(line as nat, "bracket_mismatch"@, "warn"@, mismatch_msg(c, top.br())),
        ],
{
    let mut m: Vec<char> = Vec::new();
    push_str(&mut m, "Found '");
    m.push(c);
    push_str(&mut m, "' but last open was '");
    m.push(top.ch);
    push_str(&mut m, "' (opened at line ");
    push_dec(&mut m, top.line as u128);
    push_str(&mut m, ", col ");
    push_dec(&mut m, top.col as u128);
    push_str(&mut m, ")");
    assert(m@ =~= mismatch_msg(c, top.br()));
    push_note(notes, line, "bracket_mismatch", "warn", string_from_chars(&m));
}

fn push_stray_note(notes: &mut Vec<Note>, c: char, line: usize, col: usize)
    ensures
        note_views(final(notes)@) == note_views(old(notes)@) + seq![
            note(line as nat, "stray_closing_bracket"@, "warn"@, stray_msg(c, col as nat)),
        ],
{
    let mut m: Vec<char> = Vec::new();
    push_str(&mut m, "Stray closing '");
    m.push(c);
    push_str(&mut m, "' at col ");
    push_dec(&mut m, col as u128);
    assert(m@ =~= stray_msg(c, col as nat));
    push_note(notes, line, "stray_closing_bracket", "warn", string_from_chars(&m));
}

/// Applies a character outside strings and comments; returns the penalty.
fn apply_bracket(
    stack: &mut Vec<OpenBr>,
    notes: &mut Vec<Note>,
    c: char,
    line: usize,
    col: usize,
    Ghost(st): Ghost<BrScan>,
    Ghost(base): Ghost<Seq<NoteView>>,
) -> (p: u128)
    requires
        brs(old(stack)@) == st.stack,
        note_views(old(notes)@) == base + st.notes,
    ensures
        ({
            let e = bracket_effect(st, c, line as nat, col as nat);
            &&& brs(final(stack)@) == e.stack
            &&& st.penalties + p == e.penalties
            &&& note_views(final(notes)@) == base + e.notes
        }),
        p <= 6,
        final(stack)@.len() <= old(stack)@.len() + 1,
{
    if c == '{' || c == '(' || c == '[' {
        stack.push(OpenBr { ch: c, line, col });
        assert(brs(stack@) =~= st.stack.push(Br { ch: c, line: line as nat, col: col as nat }));
        return 0;
    }
    if c == '}' || c == ')' || c == ']' {
        match stack.pop() {
            Some(top) => {
                assert(brs(stack@) =~= st.stack.drop_last());
                assert(top.br() == st.stack.last());
                let ok = (top.ch == '{' && c == '}') || (top.ch == '(' && c == ')') || (top.ch == '['
                    && c == ']');
                if !ok {
                    push_mismatch_note(notes, c, &top, line);
                    return 6;
                }
                return 0;
            },
            None => {
                push_stray_note(notes, c, line, col);
                return 6;
            },
        }
    }
    0
}

/// Bracket balance outside strings and comments: a closing bracket that
/// does not match the last open one, a stray closing bracket, and each
/// bracket left open. Appends a note per issue; returns the penalty.
#[verifier::rlimit(80)]
pub fn check_brackets(b: &[char], mode: BracketMode, notes: &mut Vec<Note>) -> (p: u128)
    ensures
        p <= 0x40_0000_0000_0000_0000,
        p == bracket_findings(b@, mode).0,
        note_views(final(notes)@) == note_views(old(notes)@) + bracket_findings(b@, mode).1,
{
    let ghost base = note_views(notes@);
    let ghost init = BrScan {
        i: 0,
        line: 1,
        col: 0,
        in_str: None,
        in_ml: false,
        last: None,
        stack: Seq::empty(),
        penalties: 0,
        notes: Seq::empty(),
    };
    let mut stack: Vec<OpenBr> = Vec::new();
    let mut penalties: u128 = 0;
    let mut line: u128 = 1;
    let mut col: usize = 0;
    let mut i: usize = 0;
    let mut in_str: Option<StrState> = None;
    let mut in_ml = false;
    let mut last: Option<char> = None;
    let ghost mut rel: Seq<NoteView> = Seq::empty();
    assert(brs(stack@) =~= Seq::<Br>::empty());
    assert(note_views(notes@) =~= base + rel);
    while i < b.len()
        invariant
            i <= b@.len(),
            col <= i,
            line <= i + 1,
            stack@.len() <= i,
            penalties <= 6 * i,
            note_views(notes@) == base + rel,
            br_run(
                b@,
                mode,
                BrScan {
                    i: i as int,
                    line: line as nat,
                    col: col as nat,
                    in_str,
                    in_ml,
                    last,
                    stack: brs(stack@),
                    penalties: penalties as nat,
                    notes: rel,
                },
            ) == br_run(b@, mode, init),
        decreases b@.len() - i,
    {
        let ghost cur = BrScan {
            i: i as int,
            line: line as nat,
            col: col as nat,
            in_str,
            in_ml,
            last,
            stack: brs(stack@),
            penalties: penalties as nat,
            notes: rel,
        };
        proof {
            lemma_br_step(b@, mode, cur);
            lemma_next_nl(b@, i as int);
        }
        let c = b[i];
        col = col + 1;
        if c == '\n' {
            line = line + 1;
            col = 0;
            last = Some(c);
            i = i + 1;
            continue;
        }
        match in_str {
            Some(StrState::Js(q)) => {
                if c == q && !is_escaped(b, i) {
                    in_str = None;
                }
                last = Some(c);
                i = i + 1;
                continue;
            },
            Some(StrState::Py { quote, triple, raw }) => {
                if triple {
                    if c == quote && b.len() - i > 2 && b[i + 1] == quote && b[i + 2] == quote {
                        in_str = None;
                        i = i + 3;
                        col = col + 2;
                        last = Some(quote);
                    } else {
                        last = Some(c);
                        i = i + 1;
                    }
                } else {
                    if c == quote && (raw || !is_escaped(b, i)) {
                        in_str = None;
                    }
                    last = Some(c);
                    i = i + 1;
                }
                continue;
            },
            None => {},
        }
        match mode {
            BracketMode::JsCss => {
                if in_ml {
                    if last == Some('*') && c == '/' {
                        in_ml = false;
                    }
                    last = Some(c);
                    i = i + 1;
                    continue;
                }
                if last == Some('/') && c == '/' {
                    i = next_newline(b, i);
                    last = Some('/');
                    continue;
                }
                if last == Some('/') && c == '*' {
                    in_ml = true;
                    last = Some('*');
                    i = i + 1;
                    continue;
                }
                if c == '\'' || c == '"' || c == '`' {
                    in_str = Some(StrState::Js(c));
                    last = Some(c);
                    i = i + 1;
                    continue;
                }
            },
            BracketMode::Python => {
                if c == '#' {
                    i = next_newline(b, i);
                    last = Some('#');
                    continue;
                }
                if c == '\'' || c == '"' {
                    let raw = has_raw_prefix(b, i);
                    if b.len() - i > 2 && b[i + 1] == c && b[i + 2] == c {
                        in_str = Some(StrState::Py { quote: c, triple: true, raw });
                        i = i + 3;
                        col = col + 2;
                    } else {
                        in_str = Some(StrState::Py { quote: c, triple: false, raw });
                        i = i + 1;
                    }
                    last = Some(c);
                    continue;
                }
            },
        }
        let q = apply_bracket(&mut stack, notes, c, line as usize, col, Ghost(cur), Ghost(base));
        proof {
            rel = bracket_effect(cur, c, line as nat, col as nat).notes;
        }
        penalties = penalties + q;
        last = Some(c);
        i = i + 1;
    }
    let ghost end = br_run(b@, mode, init);
    let ghost un = unclosed_notes(end.stack);
    let mut k: usize = 0;
    while k < stack.len()
        invariant
            k <= stack@.len(),
            brs(stack@) == end.stack,
            un == unclosed_notes(end.stack),
            stack@.len() <= b@.len(),
            b@.len() <= usize::MAX,
            penalties <= 6 * b@.len() + 6 * k,
            penalties == end.penalties + 6 * k,
            note_views(notes@) == base + end.notes + un.take(k as int),
        decreases stack@.len() - k,
    {
        let t = &stack[k];
        assert(end.stack[k as int] == t.br());
        let mut m: Vec<char> = Vec::new();
        push_str(&mut m, "Unclosed '");
        m.push(t.ch);
        push_str(&mut m, "' opened at line ");
        push_dec(&mut m, t.line as u128);
        push_str(&mut m, ", col ");
        push_dec(&mut m, t.col as u128);
        assert(m@ =~= unclosed_msg(t.br()));
        push_note(notes, t.line, "unclosed_bracket", "warn", string_from_chars(&m));
        assert(un.take(k + 1) =~= un.take(k as int).push(un[k as int]));
        penalties = penalties + 6;
        k = k + 1;
    }
    assert(un.take(k as int) =~= un);
    penalties
}

} // verus!
