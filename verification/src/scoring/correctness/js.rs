//! JavaScript heuristics: missing semicolons, loose equality, assignment
//! inside conditions.
use crate::models::{lemma_note_if, note, note_if, note_views, push_note, Note, NoteView};
use crate::scoring::cleanliness::b2n;
use crate::text::{
    contains, contains_str, copy_range, ends_with, ends_with_str, find, find_chars, lines_of, split_lines,
    starts_with, starts_with_str, texts, to_chars, trim, trim_chars, trim_end, trim_end_chars, trim_start,
    trim_start_chars,
};
use vstd::prelude::*;
use vstd::string::StringExecFns;

verus! {

/* ---------- semicolons ---------- */

/// The lexical state carried across lines: inside a block comment, inside
/// a string (and its quote), and whether the previous string character was
/// an escaping backslash.
pub struct JsLex {
    pub in_ml: bool,
    pub in_str: Option<char>,
    pub backslash: bool,
}

/// The lexical state at the end of a line scanned from index `j`, and
/// whether a `//` comment started on it.
pub open spec fn js_line_scan(b: Seq<char>, j: int, st: JsLex) -> (JsLex, bool)
    decreases b.len() - j,
{
    if j < 0 || j >= b.len() {
        (st, false)
    } else {
        let c = b[j];
        match st.in_str {
            Some(q) => js_line_scan(
                b,
                j + 1,
                JsLex {
                    in_ml: st.in_ml,
                    in_str: if !st.backslash && c == q { None } else { Some(q) },
                    backslash: (!st.backslash && c == '\\') && q != '`',
                },
            ),
            None => if st.in_ml {
                if j + 1 < b.len() && b[j] == '*' && b[j + 1] == '/' {
                    js_line_scan(b, j + 2, JsLex { in_ml: false, ..st })
                } else {
                    js_line_scan(b, j + 1, st)
                }
            } else if j + 1 < b.len() && c == '/' && b[j + 1] == '/' {
                (st, true)
            } else if j + 1 < b.len() && c == '/' && b[j + 1] == '*' {
                js_line_scan(b, j + 2, JsLex { in_ml: true, ..st })
            } else if c == '"' || c == '\'' || c == '`' {
                js_line_scan(b, j + 1, JsLex { in_str: Some(c), ..st })
            } else {
                js_line_scan(b, j + 1, st)
            },
        }
    }
}

/// A line ending that continues the statement on the next line.
pub open spec fn continues_statement(t: Seq<char>) -> bool {
    ||| ends_with(t, "("@)
    ||| ends_with(t, "["@)
    ||| ends_with(t, "{"@)
    ||| ends_with(t, ","@)
    ||| ends_with(t, ":"@)
    ||| ends_with(t, "?"@)
    ||| ends_with(t, "&&"@)
    ||| ends_with(t, "||"@)
    ||| ends_with(t, "??"@)
    ||| ends_with(t, "+"@)
    ||| ends_with(t, "-"@)
    ||| ends_with(t, "*"@)
    ||| ends_with(t, "/"@)
    ||| ends_with(t, "%"@)
    ||| ends_with(t, "**"@)
    ||| ends_with(t, "&"@)
    ||| ends_with(t, "|"@)
    ||| ends_with(t, "^"@)
    ||| ends_with(t, ">>"@)
    ||| ends_with(t, "<<"@)
    ||| ends_with(t, ">>>"@)
    ||| ends_with(t, "="@)
    ||| ends_with(t, "=="@)
    ||| ends_with(t, "==="@)
    ||| ends_with(t, "!="@)
    ||| ends_with(t, "!=="@)
    ||| ends_with(t, "+="@)
    ||| ends_with(t, "-="@)
    ||| ends_with(t, "*="@)
    ||| ends_with(t, "/="@)
    ||| ends_with(t, "%="@)
    ||| ends_with(t, "&&="@)
    ||| ends_with(t, "||="@)
    ||| ends_with(t, "??="@)
    ||| ends_with(t, "&="@)
    ||| ends_with(t, "|="@)
    ||| ends_with(t, "^="@)
    ||| ends_with(t, "<<="@)
    ||| ends_with(t, ">>="@)
    ||| ends_with(t, ">>>="@)
    ||| ends_with(t, "=>"@)
}

/// A line that may legitimately end without a semicolon: one ending with
/// `;`, `{`, `}` or `,`, one ending with a continuing operator, or one
/// starting with a statement keyword.
pub open spec fn semicolon_optional(t: Seq<char>) -> bool {
    ||| ends_with(t, ";"@)
    ||| ends_with(t, "{"@)
    ||| ends_with(t, "}"@)
    ||| ends_with(t, ","@)
    ||| continues_statement(t)
    ||| starts_with(t, "if"@)
    ||| starts_with(t, "for"@)
    ||| starts_with(t, "while"@)
    ||| starts_with(t, "switch"@)
    ||| starts_with(t, "try"@)
    ||| starts_with(t, "catch"@)
    ||| starts_with(t, "finally"@)
    ||| starts_with(t, "function"@)
    ||| starts_with(t, "class"@)
    ||| starts_with(t, "do"@)
    ||| starts_with(t, "else"@)
}

/// The code part of a line: up to its first `//` when a line comment
/// started on it.
pub open spec fn code_part(raw: Seq<char>, in_sl: bool) -> Seq<char> {
    if in_sl {
        match find(raw, "//"@) {
            Some(k) => raw.take(k),
            None => raw,
        }
    } else {
        raw
    }
}

/// The line scan state.
pub struct SemiScan {
    pub penalties: nat,
    pub notes: Seq<NoteView>,
    pub lex: JsLex,
}

/// One line of the semicolon scan.
pub open spec fn semi_step(st: SemiScan, raw: Seq<char>, line_no: nat) -> SemiScan {
    let r = js_line_scan(raw, 0, st.lex);
    let t = trim(trim_end(code_part(raw, r.1)));
    let missing = !(t.len() == 0 || starts_with(t, "/*"@) || r.0.in_ml || starts_with(t, "//"@)
        || semicolon_optional(t));
    SemiScan {
        penalties: st.penalties + b2n(missing),
        notes: st.notes + note_if(
            missing,
            note(line_no, "js_semicolon"@, "info"@, "Potential missing semicolon (heuristic)"@),
        ),
        lex: r.0,
    }
}

/// The semicolon scan over the first `n` lines.
pub open spec fn semi_scan(lines: Seq<Seq<char>>, n: nat) -> SemiScan
    decreases n,
{
    if n == 0 {
        SemiScan {
            penalties: 0,
            notes: Seq::empty(),
            lex: JsLex { in_ml: false, in_str: None, backslash: false },
        }
    } else {
        semi_step(semi_scan(lines, (n - 1) as nat), lines[n - 1], n)
    }
}

/// Penalty and notes of the semicolon check.
pub open spec fn semicolon_findings(code: Seq<char>) -> (nat, Seq<NoteView>) {
    let s = semi_scan(lines_of(code), lines_of(code).len());
    (s.penalties, s.notes)
}

fn continues_statement_exec(t: &[char]) -> (b: bool)
    ensures
        b == continues_statement(t@),
{
    ends_with_str(t, "(") || ends_with_str(t, "[") || ends_with_str(t, "{") || ends_with_str(t, ",") || ends_with_str(t, ":") || ends_with_str(t, "?") || ends_with_str(t, "&&") || ends_with_str(t, "||") || ends_with_str(t, "??") || ends_with_str(t, "+") || ends_with_str(t, "-") || ends_with_str(t, "*") || ends_with_str(t, "/") || ends_with_str(t, "%") || ends_with_str(t, "**") || ends_with_str(t, "&") || ends_with_str(t, "|") || ends_with_str(t, "^") || ends_with_str(t, ">>") || ends_with_str(t, "<<") || ends_with_str(t, ">>>") || ends_with_str(t, "=") || ends_with_str(t, "==") || ends_with_str(t, "===") || ends_with_str(t, "!=") || ends_with_str(t, "!==") || ends_with_str(t, "+=") || ends_with_str(t, "-=") || ends_with_str(t, "*=") || ends_with_str(t, "/=") || ends_with_str(t, "%=") || ends_with_str(t, "&&=") || ends_with_str(t, "||=") || ends_with_str(t, "??=") || ends_with_str(t, "&=") || ends_with_str(t, "|=") || ends_with_str(t, "^=") || ends_with_str(t, "<<=") || ends_with_str(t, ">>=") || ends_with_str(t, ">>>=") || ends_with_str(t, "=>")
}

fn semicolon_optional_exec(t: &[char]) -> (b: bool)
    ensures
        b == semicolon_optional(t@),
{
    ends_with_str(t, ";") || ends_with_str(t, "{") || ends_with_str(t, "}") || ends_with_str(t, ",")
        || continues_statement_exec(t) || starts_with_str(t, "if") || starts_with_str(t, "for")
        || starts_with_str(t, "while") || starts_with_str(t, "switch") || starts_with_str(t, "try")
        || starts_with_str(t, "catch") || starts_with_str(t, "finally") || starts_with_str(t, "function")
        || starts_with_str(t, "class") || starts_with_str(t, "do") || starts_with_str(t, "else")
}

/// Scans one line, updating the lexical state; returns whether a line
/// comment started on it.
fn scan_js_line(b: &[char], in_ml: &mut bool, in_str: &mut Option<char>, backslash: &mut bool) -> (in_sl: bool)
    ensures
        ({
            let r = js_line_scan(
                b@,
                0,
                JsLex { in_ml: *old(in_ml), in_str: *old(in_str), backslash: *old(backslash) },
            );
            &&& r.0 == JsLex { in_ml: *final(in_ml), in_str: *final(in_str), backslash: *final(backslash) }
            &&& r.1 == in_sl
        }),
{
    let ghost init = JsLex { in_ml: *in_ml, in_str: *in_str, backslash: *backslash };
    let mut j: usize = 0;
    while j < b.len()
        invariant
            j <= b@.len(),
            init == (JsLex { in_ml: *old(in_ml), in_str: *old(in_str), backslash: *old(backslash) }),
            js_line_scan(b@, j as int, JsLex { in_ml: *in_ml, in_str: *in_str, backslash: *backslash })
                == js_line_scan(b@, 0, init),
        decreases b@.len() - j,
    {
        let c = b[j];
        match *in_str {
            Some(q) => {
                if !*backslash && c == q {
                    *in_str = None;
                }
                *backslash = (!*backslash && c == '\\') && q != '`';
                j = j + 1;
                continue;
            },
            None => {},
        }
        if *in_ml {
            if j + 1 < b.len() && b[j] == '*' && b[j + 1] == '/' {
                *in_ml = false;
                j = j + 2;
            } else {
                j = j + 1;
            }
            continue;
        }
        if j + 1 < b.len() && b[j] == '/' && b[j + 1] == '/' {
            assert(js_line_scan(b@, j as int, JsLex { in_ml: *in_ml, in_str: *in_str, backslash: *backslash })
                == (JsLex { in_ml: *in_ml, in_str: *in_str, backslash: *backslash }, true));
            return true;
        }
        if j + 1 < b.len() && b[j] == '/' && b[j + 1] == '*' {
            *in_ml = true;
            j = j + 2;
            continue;
        }
        if c == '"' || c == '\'' || c == '`' {
            *in_str = Some(c);
        }
        j = j + 1;
    }
    false
}

/// One line of the semicolon check, appending its note; returns the
/// penalty.
fn semicolon_line(
    notes: &mut Vec<Note>,
    raw: &[char],
    line_no: usize,
    in_ml: &mut bool,
    in_str: &mut Option<char>,
    backslash: &mut bool,
    Ghost(prev): Ghost<SemiScan>,
    Ghost(base): Ghost<Seq<NoteView>>,
) -> (p: u128)
    requires
        prev.lex == (JsLex { in_ml: *old(in_ml), in_str: *old(in_str), backslash: *old(backslash) }),
        note_views(old(notes)@) == base + prev.notes,
    ensures
        p + prev.penalties == semi_step(prev, raw@, line_no as nat).penalties,
        p <= 1,
        semi_step(prev, raw@, line_no as nat).lex == (JsLex {
            in_ml: *final(in_ml),
            in_str: *final(in_str),
            backslash: *final(backslash),
        }),
        note_views(final(notes)@) == base + semi_step(prev, raw@, line_no as nat).notes,
{
    let in_sl = scan_js_line(raw, in_ml, in_str, backslash);
    let effective = if in_sl {
        match find_chars(raw, &to_chars("//")) {
            Some(k) => copy_range(raw, 0, k),
            None => copy_range(raw, 0, raw.len()),
        }
    } else {
        copy_range(raw, 0, raw.len())
    };
    assert(effective@ =~= code_part(raw@, in_sl));
    let te = trim_end_chars(&effective);
    let t = trim_chars(&te);
    let missing = !(t.len() == 0 || starts_with_str(&t, "/*") || *in_ml || starts_with_str(&t, "//")
        || semicolon_optional_exec(&t));
    let ghost v = note_views(notes@);
    if missing {
        push_note(
            notes,
            line_no,
            "js_semicolon",
            "info",
            String::from_str("Potential missing semicolon (heuristic)"),
        );
    }
    proof {
        lemma_note_if(
            v,
            missing,
            note(line_no as nat, "js_semicolon"@, "info"@, "Potential missing semicolon (heuristic)"@),
        );
    }
    if missing {
        1
    } else {
        0
    }
}

/// Semicolon check: a code line that does not end a statement, open a
/// block, continue an expression or start with a statement keyword, and
/// is outside comments and strings, probably misses a `;`. Appends a note
/// per line; returns the penalty.
pub fn check_js_semicolons_better(code: &[char], notes: &mut Vec<Note>) -> (p: u128)
    ensures
        p <= 0x40_0000_0000_0000_0000,
        p == semicolon_findings(code@).0,
        note_views(final(notes)@) == note_views(old(notes)@) + semicolon_findings(code@).1,
{
    let ghost base = note_views(notes@);
    let lines = split_lines(code);
    let ghost ls = lines_of(code@);
    let mut in_ml = false;
    let mut in_str: Option<char> = None;
    let mut backslash = false;
    let mut p: u128 = 0;
    let mut i: usize = 0;
    assert(base + semi_scan(ls, 0).notes =~= base);
    while i < lines.len()
        invariant
            texts(lines@) == ls,
            i <= lines@.len(),
            semi_scan(ls, i as nat).lex == (JsLex { in_ml, in_str, backslash }),
            p == semi_scan(ls, i as nat).penalties,
            p <= i,
            note_views(notes@) == base + semi_scan(ls, i as nat).notes,
        decreases lines@.len() - i,
    {
        assert(lines@[i as int]@ == ls[i as int]);
        let q = semicolon_line(
            notes,
            &lines[i],
            i + 1,
            &mut in_ml,
            &mut in_str,
            &mut backslash,
            Ghost(semi_scan(ls, i as nat)),
            Ghost(base),
        );
        p = p + q;
        i = i + 1;
    }
    p
}

/* ---------- comparisons and assignments ---------- */

/// A line using `==` but not `===` (or `!=` but not `!==`).
pub open spec fn loose_eq(t: Seq<char>) -> bool {
    contains(t, "=="@) && !contains(t, "==="@)
}

pub open spec fn loose_ne(t: Seq<char>) -> bool {
    contains(t, "!="@) && !contains(t, "!=="@)
}

/// Notes and penalty of the loose-comparison check on one line.
pub open spec fn loose_issues(line: Seq<char>, line_no: nat) -> (nat, Seq<NoteView>) {
    let t = trim(line);
    (
        b2n(loose_eq(t)) + b2n(loose_ne(t)),
        note_if(
            loose_eq(t),
            note(
                line_no,
                "js_loose_equality"@,
                "info"@,
                "Consider using '===' instead of '==' to avoid coercion surprises"@,
            ),
        ) + note_if(
            loose_ne(t),
            note(
                line_no,
                "js_loose_inequality"@,
                "info"@,
                "Consider using '!==' instead of '!=' to avoid coercion surprises"@,
            ),
        ),
    )
}

/// Parenthesis depth over a text: `(` opens, `)` closes.
pub open spec fn paren_depth(s: Seq<char>) -> int
    decreases s.len(),
{
    if s.len() == 0 {
        0
    } else {
        paren_depth(s.drop_last()) + if s.last() == '(' {
            1int
        } else if s.last() == ')' {
            -1int
        } else {
            0int
        }
    }
}

/// Position `j` holds a lone `=`: not part of `==` or `=>`.
pub open spec fn lone_assign(b: Seq<char>, j: int) -> bool {
    &&& 0 <= j < b.len()
    &&& b[j] == '='
    &&& !(j > 0 && b[j - 1] == '=')
    &&& !(j + 1 < b.len() && (b[j + 1] == '=' || b[j + 1] == '>'))
}

/// A line starting (after indentation) with `if`, `while` or `for`.
pub open spec fn condition_start(lt: Seq<char>) -> bool {
    ||| starts_with(lt, "if "@)
    ||| starts_with(lt, "if("@)
    ||| starts_with(lt, "while "@)
    ||| starts_with(lt, "while("@)
    ||| starts_with(lt, "for "@)
    ||| starts_with(lt, "for("@)
}

/// A conditional line with a lone `=` inside parentheses.
pub open spec fn assign_in_condition(line: Seq<char>) -> bool {
    &&& condition_start(trim_start(line))
    &&& exists|j: int| lone_assign(line, j) && paren_depth(line.take(j)) > 0
}

/// The loose-comparison findings of the first `n` lines.
pub open spec fn loose_scan(lines: Seq<Seq<char>>, n: nat) -> (nat, Seq<NoteView>)
    decreases n,
{
    if n == 0 {
        (0, Seq::empty())
    } else {
        let p = loose_scan(lines, (n - 1) as nat);
        let l = loose_issues(lines[n - 1], n);
        (p.0 + l.0, p.1 + l.1)
    }
}

/// A line is flagged for loose equality when its trimmed text holds `==`
/// but not `===`.
pub open spec fn flags_loose_equality(line: Seq<char>) -> bool {
    contains(trim(line), "=="@) && !contains(trim(line), "==="@)
}

/// The loose-equality notes of the comparison check over the first `n`
/// lines are exactly one per line (numbered from 1) whose trimmed text
/// holds `==` and no `===`: a line with a strict `===` is never flagged,
/// and every line with only a loose `==` is.
pub proof fn lemma_loose_equality_notes(ls: Seq<Seq<char>>, n: nat)
    requires
        n <= ls.len(),
    ensures
        forall|j: int|
            0 <= j < loose_scan(ls, n).1.len() && (#[trigger] loose_scan(ls, n).1[j]).kind
                == "js_loose_equality"@ ==> 1 <= loose_scan(ls, n).1[j].line <= n && flags_loose_equality(
                ls[loose_scan(ls, n).1[j].line - 1],
            ),
        forall|k: int|
            1 <= k <= n && flags_loose_equality(#[trigger] ls[k - 1]) ==> exists|j: int|
                0 <= j < loose_scan(ls, n).1.len() && (#[trigger] loose_scan(ls, n).1[j]).kind
                    == "js_loose_equality"@ && loose_scan(ls, n).1[j].line == k,
    decreases n,
{
    reveal_strlit("js_loose_equality");
    reveal_strlit("js_loose_inequality");
    assert("js_loose_equality"@.len() != "js_loose_inequality"@.len());
    if n > 0 {
        lemma_loose_equality_notes(ls, (n - 1) as nat);
        let p = loose_scan(ls, (n - 1) as nat).1;
        let l = loose_issues(ls[n - 1], n).1;
        let all = loose_scan(ls, n).1;
        assert(all == p + l);
        assert forall|j: int|
            0 <= j < all.len() && (#[trigger] all[j]).kind == "js_loose_equality"@ implies 1 <= all[j].line
                <= n && flags_loose_equality(ls[all[j].line - 1]) by {
            if j < p.len() {
                assert(all[j] == p[j]);
            } else {
                assert(all[j] == l[j - p.len()]);
            }
        }
        assert forall|k: int| 1 <= k <= n && flags_loose_equality(#[trigger] ls[k - 1]) implies exists|j: int|
            0 <= j < all.len() && (#[trigger] all[j]).kind == "js_loose_equality"@ && all[j].line == k by {
            if k < n {
                let j = choose|j: int|
                    0 <= j < p.len() && (#[trigger] p[j]).kind == "js_loose_equality"@ && p[j].line == k;
                assert(all[j] == p[j]);
            } else {
                assert(all[p.len() as int] == l[0]);
            }
        }
    }
}

/// A line is flagged for loose inequality when its trimmed text holds `!=`
/// but not `!==`.
pub open spec fn flags_loose_inequality(line: Seq<char>) -> bool {
    contains(trim(line), "!="@) && !contains(trim(line), "!=="@)
}

/// The loose-inequality notes of the comparison check over the first `n`
/// lines are exactly one per line (numbered from 1) whose trimmed text
/// holds `!=` and no `!==`: a line with a strict `!==` is never flagged,
/// and every line with only a loose `!=` is.
pub proof fn lemma_loose_inequality_notes(ls: Seq<Seq<char>>, n: nat)
    requires
        n <= ls.len(),
    ensures
        forall|j: int|
            0 <= j < loose_scan(ls, n).1.len() && (#[trigger] loose_scan(ls, n).1[j]).kind
                == "js_loose_inequality"@ ==> 1 <= loose_scan(ls, n).1[j].line <= n && flags_loose_inequality(
                ls[loose_scan(ls, n).1[j].line - 1],
            ),
        forall|k: int|
            1 <= k <= n && flags_loose_inequality(#[trigger] ls[k - 1]) ==> exists|j: int|
                0 <= j < loose_scan(ls, n).1.len() && (#[trigger] loose_scan(ls, n).1[j]).kind
                    == "js_loose_inequality"@ && loose_scan(ls, n).1[j].line == k,
    decreases n,
{
    reveal_strlit("js_loose_equality");
    reveal_strlit("js_loose_inequality");
    assert("js_loose_equality"@.len() != "js_loose_inequality"@.len());
    if n > 0 {
        lemma_loose_inequality_notes(ls, (n - 1) as nat);
        let p = loose_scan(ls, (n - 1) as nat).1;
        let l = loose_issues(ls[n - 1], n).1;
        let all = loose_scan(ls, n).1;
        assert(all == p + l);
        assert forall|j: int|
            0 <= j < all.len() && (#[trigger] all[j]).kind == "js_loose_inequality"@ implies 1 <= all[j].line
                <= n && flags_loose_inequality(ls[all[j].line - 1]) by {
            if j < p.len() {
                assert(all[j] == p[j]);
            } else {
                assert(all[j] == l[j - p.len()]);
            }
        }
        assert forall|k: int| 1 <= k <= n && flags_loose_inequality(#[trigger] ls[k - 1]) implies exists|j: int|
            0 <= j < all.len() && (#[trigger] all[j]).kind == "js_loose_inequality"@ && all[j].line == k by {
            if k < n {
                let j = choose|j: int|
                    0 <= j < p.len() && (#[trigger] p[j]).kind == "js_loose_inequality"@ && p[j].line == k;
                assert(all[j] == p[j]);
            } else if loose_eq(trim(ls[n - 1])) {
                assert(all[p.len() + 1int] == l[1]);
            } else {
                assert(all[p.len() as int] == l[0]);
            }
        }
    }
}

/// The assignment-in-condition findings of the first `n` lines.
pub open spec fn assign_scan(lines: Seq<Seq<char>>, n: nat) -> (nat, Seq<NoteView>)
    decreases n,
{
    if n == 0 {
        (0, Seq::empty())
    } else {
        let p = assign_scan(lines, (n - 1) as nat);
        let a = assign_in_condition(lines[n - 1]);
        (
            p.0 + 4 * b2n(a),
            p.1 + note_if(
                a,
                note(
                    n,
                    "js_assignment_in_condition"@,
                    "warn"@,
                    "Possible accidental assignment '=' inside condition; did you mean '==' or '==='?"@,
                ),
            ),
        )
    }
}

/// Penalty and notes of the comparison and assignment checks: all the
/// comparison notes, then all the assignment notes.
pub open spec fn comparison_findings(code: Seq<char>) -> (nat, Seq<NoteView>) {
    let ls = lines_of(code);
    let a = loose_scan(ls, ls.len());
    let b = assign_scan(ls, ls.len());
    (a.0 + b.0, a.1 + b.1)
}

/// The assignment-in-condition check only writes notes of its own kind.
proof fn lemma_assign_note_kinds(ls: Seq<Seq<char>>, n: nat)
    ensures
        forall|j: int|
            0 <= j < assign_scan(ls, n).1.len() ==> (#[trigger] assign_scan(ls, n).1[j]).kind
                == "js_assignment_in_condition"@,
    decreases n,
{
    if n > 0 {
        lemma_assign_note_kinds(ls, (n - 1) as nat);
        let p = assign_scan(ls, (n - 1) as nat).1;
        let all = assign_scan(ls, n).1;
        assert forall|j: int| 0 <= j < all.len() implies (#[trigger] all[j]).kind
            == "js_assignment_in_condition"@ by {
            if j < p.len() {
                assert(all[j] == p[j]);
            }
        }
    }
}

/// The comparison check of a JavaScript text writes a `js_loose_equality`
/// note exactly for the lines (numbered from 1) whose trimmed text holds
/// `==` and no `===`.
pub proof fn lemma_comparison_loose_equality(code: Seq<char>)
    ensures
        ({
            let ls = lines_of(code);
            let f = comparison_findings(code).1;
            &&& forall|j: int|
                0 <= j < f.len() && (#[trigger] f[j]).kind == "js_loose_equality"@ ==> 1 <= f[j].line
                    <= ls.len() && flags_loose_equality(ls[f[j].line - 1])
            &&& forall|k: int|
                1 <= k <= ls.len() && flags_loose_equality(#[trigger] ls[k - 1]) ==> exists|j: int|
                    0 <= j < f.len() && (#[trigger] f[j]).kind == "js_loose_equality"@ && f[j].line == k
        }),
{
    let ls = lines_of(code);
    let n = ls.len();
    lemma_loose_equality_notes(ls, n);
    lemma_assign_note_kinds(ls, n);
    reveal_strlit("js_loose_equality");
    reveal_strlit("js_assignment_in_condition");
    assert("js_loose_equality"@.len() != "js_assignment_in_condition"@.len());
    let a = loose_scan(ls, n).1;
    let b = assign_scan(ls, n).1;
    let f = comparison_findings(code).1;
    assert(f == a + b);
    assert forall|j: int| 0 <= j < f.len() && (#[trigger] f[j]).kind == "js_loose_equality"@ implies 1
        <= f[j].line <= ls.len() && flags_loose_equality(ls[f[j].line - 1]) by {
        if j < a.len() {
            assert(f[j] == a[j]);
        } else {
            assert(f[j] == b[j - a.len()]);
        }
    }
    assert forall|k: int| 1 <= k <= ls.len() && flags_loose_equality(#[trigger] ls[k - 1]) implies exists|j: int|
        0 <= j < f.len() && (#[trigger] f[j]).kind == "js_loose_equality"@ && f[j].line == k by {
        let j = choose|j: int| 0 <= j < a.len() && (#[trigger] a[j]).kind == "js_loose_equality"@ && a[j].line == k;
        assert(f[j] == a[j]);
    }
}

/// Whether the line holds a lone `=` inside parentheses.
fn has_assign_in_parens(b: &[char]) -> (r: bool)
    ensures
        r == exists|j: int| lone_assign(b@, j) && paren_depth(b@.take(j)) > 0,
{
    let mut depth: i128 = 0;
    let mut j: usize = 0;
    while j < b.len()
        invariant
            j <= b@.len(),
            depth == paren_depth(b@.take(j as int)),
            -(j as int) <= depth <= j,
            forall|m: int| 0 <= m < j ==> !(lone_assign(b@, m) && paren_depth(b@.take(m)) > 0),
        decreases b@.len() - j,
    {
        let c = b[j];
        if depth > 0 && c == '=' {
            let prev_eq = j > 0 && b[j - 1] == '=';
            let next_bad = j + 1 < b.len() && (b[j + 1] == '=' || b[j + 1] == '>');
            if !(prev_eq || next_bad) {
                assert(lone_assign(b@, j as int));
                return true;
            }
        }
        if c == '(' {
            depth = depth + 1;
        } else if c == ')' {
            depth = depth - 1;
        }
        j = j + 1;
        assert(b@.take(j as int).drop_last() =~= b@.take(j - 1));
    }
    false
}

/// Comparison and assignment checks: `==` without `===`, `!=` without
/// `!==`, and a lone `=` inside the parentheses of an `if`, `while` or
/// `for`. Appends a note per issue; returns the penalty.
pub fn check_js_comparisons_and_assignments(code: &[char], notes: &mut Vec<Note>) -> (p: u128)
    ensures
        p <= 0x40_0000_0000_0000_0000,
        p == comparison_findings(code@).0,
        note_views(final(notes)@) == note_views(old(notes)@) + comparison_findings(code@).1,
{
    let ghost base = note_views(notes@);
    let lines = split_lines(code);
    let ghost ls = lines_of(code@);
    let mut p: u128 = 0;
    let mut i: usize = 0;
    assert(base + loose_scan(ls, 0).1 =~= base);
    while i < lines.len()
        invariant
            texts(lines@) == ls,
            i <= lines@.len(),
            p == loose_scan(ls, i as nat).0,
            p <= 2 * i,
            note_views(notes@) == base + loose_scan(ls, i as nat).1,
        decreases lines@.len() - i,
    {
        assert(lines@[i as int]@ == ls[i as int]);
        let ghost v0 = note_views(notes@);
        let t = trim_chars(&lines[i]);
        let eq = contains_str(&t, "==") && !contains_str(&t, "===");
        let ne = contains_str(&t, "!=") && !contains_str(&t, "!==");
        let ghost ln = (i + 1) as nat;
        if eq {
            push_note(
                notes,
                i + 1,
                "js_loose_equality",
                "info",
                String::from_str("Consider using '===' instead of '==' to avoid coercion surprises"),
            );
            p = p + 1;
        }
        proof {
            lemma_note_if(
                v0,
                eq,
                note(ln, "js_loose_equality"@, "info"@, "Consider using '===' instead of '==' to avoid coercion surprises"@),
            );
        }
        let ghost v1 = note_views(notes@);
        if ne {
            push_note(
                notes,
                i + 1,
                "js_loose_inequality",
                "info",
                String::from_str("Consider using '!==' instead of '!=' to avoid coercion surprises"),
            );
            p = p + 1;
        }
        proof {
            lemma_note_if(
                v1,
                ne,
                note(ln, "js_loose_inequality"@, "info"@, "Consider using '!==' instead of '!=' to avoid coercion surprises"@),
            );
        }
        assert(note_views(notes@) =~= base + loose_scan(ls, (i + 1) as nat).1);
        i = i + 1;
    }
    let ghost head = note_views(notes@);
    let ghost p0 = p as nat;
    let mut k: usize = 0;
    assert(head + assign_scan(ls, 0).1 =~= head);
    while k < lines.len()
        invariant
            texts(lines@) == ls,
            k <= lines@.len(),
            p == p0 + assign_scan(ls, k as nat).0,
            p <= p0 + 4 * k,
            p0 <= 2 * lines@.len(),
            note_views(notes@) == head + assign_scan(ls, k as nat).1,
        decreases lines@.len() - k,
    {
        assert(lines@[k as int]@ == ls[k as int]);
        let line = &lines[k];
        let lt = trim_start_chars(line);
        let cond = starts_with_str(&lt, "if ") || starts_with_str(&lt, "if(") || starts_with_str(&lt, "while ")
            || starts_with_str(&lt, "while(") || starts_with_str(&lt, "for ") || starts_with_str(&lt, "for(");
        let a = cond && has_assign_in_parens(line);
        let ghost v = note_views(notes@);
        if a {
            push_note(
                notes,
                k + 1,
                "js_assignment_in_condition",
                "warn",
                String::from_str("Possible accidental assignment '=' inside condition; did you mean '==' or '==='?"),
            );
            p = p + 4;
        }
        proof {
            lemma_note_if(
                v,
                a,
                note(
                    (k + 1) as nat,
                    "js_assignment_in_condition"@,
                    "warn"@,
                    "Possible accidental assignment '=' inside condition; did you mean '==' or '==='?"@,
                ),
            );
        }
        k = k + 1;
    }
    assert(note_views(notes@) =~= base + comparison_findings(code@).1);
    p
}

} // verus!
