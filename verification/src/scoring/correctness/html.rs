//! HTML heuristics: a tag stack for mismatched, stray and unclosed tags,
//! images without `alt`, duplicate `id` values.
use crate::models::{lemma_note_if, note, note_if, note_views, push_note, Note, NoteView};
use crate::text::{
    char_is_alphanumeric, char_is_whitespace, contains, contains_str, copy_range, dec, eq_chars, is_ws,
    lower, push_chars, push_dec, push_str, skip_ws, string_from_chars, to_ascii_lower, to_chars,
    unicode_alphanumeric, lemma_skip_ws_bounds,
};
use vstd::prelude::*;
use vstd::string::StringExecFns;

verus! {

/* ---------- attributes ---------- */

/// A character of an attribute name.
pub open spec fn attr_name_char(c: char) -> bool {
    unicode_alphanumeric(c) || c == '-' || c == ':' || c == '_'
}

/// End of the attribute name starting at `i`.
pub open spec fn skip_attr_name(b: Seq<char>, i: int) -> int
    decreases b.len() - i,
{
    if i < 0 || i >= b.len() || !attr_name_char(b[i]) {
        i
    } else {
        skip_attr_name(b, i + 1)
    }
}

/// First index at or after `i` holding `q`, or the length.
pub open spec fn skip_to(b: Seq<char>, i: int, q: char) -> int
    decreases b.len() - i,
{
    if i < 0 || i >= b.len() || b[i] == q {
        i
    } else {
        skip_to(b, i + 1, q)
    }
}

/// First index at or after `i` holding whitespace, or the length.
pub open spec fn skip_non_ws(b: Seq<char>, i: int) -> int
    decreases b.len() - i,
{
    if i < 0 || i >= b.len() || is_ws(b[i]) {
        i
    } else {
        skip_non_ws(b, i + 1)
    }
}

pub proof fn lemma_skips(b: Seq<char>, i: int, q: char)
    requires
        0 <= i <= b.len(),
    ensures
        i <= skip_attr_name(b, i) <= b.len(),
        i <= skip_to(b, i, q) <= b.len(),
        i <= skip_non_ws(b, i) <= b.len(),
        i <= skip_ws(b, i) <= b.len(),
    decreases b.len() - i,
{
    lemma_skip_ws_bounds(b, i);
    if i < b.len() {
        lemma_skips(b, i + 1, q);
    }
}

/// The name is `id` in any ASCII case.
pub open spec fn is_id_name(name: Seq<char>) -> bool {
    lower(name) == "id"@
}

/// One round of the attribute reader from `i`: skip whitespace, read a
/// name, and if `=` follows read a quoted or bare value. Returns the value
/// when the name is `id`, and the index of the next round (one character
/// past where this round stopped).
pub open spec fn id_round(b: Seq<char>, i: int) -> (Option<Seq<char>>, int) {
    let i1 = skip_ws(b, i);
    let i2 = skip_attr_name(b, i1);
    let name = b.subrange(i1, i2);
    let i3 = skip_ws(b, i2);
    if i3 < b.len() && b[i3] == '=' {
        let i4 = skip_ws(b, i3 + 1);
        if i4 < b.len() && (b[i4] == '"' || b[i4] == '\'') {
            let i5 = skip_to(b, i4 + 1, b[i4]);
            let i6 = if i5 < b.len() { i5 + 1 } else { i5 };
            (if is_id_name(name) { Some(b.subrange(i4 + 1, i5)) } else { None }, i6 + 1)
        } else {
            let i5 = skip_non_ws(b, i4);
            (if is_id_name(name) { Some(b.subrange(i4, i5)) } else { None }, i5 + 1)
        }
    } else {
        (None, i3 + 1)
    }
}

pub proof fn lemma_id_round(b: Seq<char>, i: int)
    requires
        0 <= i < b.len(),
    ensures
        i < id_round(b, i).1 <= b.len() + 1,
{
    lemma_skips(b, i, ' ');
    let i1 = skip_ws(b, i);
    lemma_skips(b, i1, ' ');
    let i2 = skip_attr_name(b, i1);
    lemma_skips(b, i2, ' ');
    let i3 = skip_ws(b, i2);
    if i3 < b.len() && b[i3] == '=' {
        lemma_skips(b, i3 + 1, ' ');
        let i4 = skip_ws(b, i3 + 1);
        if i4 < b.len() {
            lemma_skips(b, i4 + 1, b[i4]);
        }
        lemma_skips(b, i4, ' ');
    }
}

/// The value of the first `id` attribute found scanning from `i`, round
/// after round.
pub open spec fn id_from(b: Seq<char>, i: int) -> Option<Seq<char>>
    decreases b.len() + 1 - i,
{
    if i < 0 || i >= b.len() {
        None
    } else {
        let r = id_round(b, i);
        match r.0 {
            Some(v) => Some(v),
            None => {
                proof {
                    lemma_id_round(b, i);
                }
                id_from(b, r.1)
            },
        }
    }
}


/// The value of the first `id` attribute of an attribute text.
pub open spec fn id_attr(b: Seq<char>) -> Option<Seq<char>> {
    id_from(b, 0)
}

fn skip_ws_exec(b: &[char], i: usize) -> (r: usize)
    requires
        i <= b@.len(),
    ensures
        r == skip_ws(b@, i as int),
        i <= r <= b@.len(),
{
    proof {
        lemma_skips(b@, i as int, ' ');
    }
    let mut k = i;
    while k < b.len() && char_is_whitespace(b[k])
        invariant
            i <= k <= b@.len(),
            skip_ws(b@, k as int) == skip_ws(b@, i as int),
        decreases b@.len() - k,
    {
        k = k + 1;
    }
    k
}

fn is_attr_name_char(c: char) -> (r: bool)
    ensures
        r == attr_name_char(c),
{
    char_is_alphanumeric(c) || c == '-' || c == ':' || c == '_'
}

/// `str::eq_ignore_ascii_case` with "id".
fn is_id(name: &[char]) -> (r: bool)
    ensures
        r == is_id_name(name@),
{
    let l = to_ascii_lower(name);
    let id = to_chars("id");
    eq_chars(&l, &id)
}

/// The value of the first `id` attribute of an attribute text.
fn extract_id_attr(b: &[char]) -> (r: Option<Vec<char>>)
    ensures
        match id_attr(b@) {
            Some(v) => r matches Some(x) && x@ == v,
            None => r is None,
        },
{
    let mut i: usize = 0;
    while i < b.len()
        invariant
            i <= b@.len(),
            id_from(b@, i as int) == id_attr(b@),
        decreases b@.len() - i,
    {
        proof {
            lemma_skips(b@, i as int, ' ');
        }
        let i1 = skip_ws_exec(b, i);
        proof {
            lemma_skips(b@, i1 as int, ' ');
        }
        let mut i2 = i1;
        while i2 < b.len() && is_attr_name_char(b[i2])
            invariant
                i1 <= i2 <= b@.len(),
                skip_attr_name(b@, i2 as int) == skip_attr_name(b@, i1 as int),
            decreases b@.len() - i2,
        {
            i2 = i2 + 1;
        }
        assert(i2 == skip_attr_name(b@, i1 as int));
        let i3 = skip_ws_exec(b, i2);
        let next: usize;
        if i3 < b.len() && b[i3] == '=' {
            let i4 = skip_ws_exec(b, i3 + 1);
            if i4 < b.len() && (b[i4] == '"' || b[i4] == '\'') {
                let q = b[i4];
                proof {
                    lemma_skips(b@, i4 + 1, q);
                }
                let mut i5 = i4 + 1;
                while i5 < b.len() && b[i5] != q
                    invariant
                        i4 + 1 <= i5 <= b@.len(),
                        skip_to(b@, i5 as int, q) == skip_to(b@, i4 + 1, q),
                    decreases b@.len() - i5,
                {
                    i5 = i5 + 1;
                }
                assert(i5 == skip_to(b@, i4 + 1, b@[i4 as int]));
                let name = copy_range(b, i1, i2);
                if is_id(&name) {
                    return Some(copy_range(b, i4 + 1, i5));
                }
                next = if i5 < b.len() { i5 + 1 } else { i5 };
            } else {
                let mut i5 = i4;
                while i5 < b.len() && !char_is_whitespace(b[i5])
                    invariant
                        i4 <= i5 <= b@.len(),
                        skip_non_ws(b@, i5 as int) == skip_non_ws(b@, i4 as int),
                    decreases b@.len() - i5,
                {
                    i5 = i5 + 1;
                }
                assert(i5 == skip_non_ws(b@, i4 as int));
                let name = copy_range(b, i1, i2);
                if is_id(&name) {
                    return Some(copy_range(b, i4, i5));
                }
                next = i5;
            }
        } else {
            next = i3;
        }
        assert(id_round(b@, i as int) == (None::<Seq<char>>, next + 1));
        assert(id_from(b@, i as int) == id_from(b@, next + 1));
        if next >= b.len() {
            assert(id_from(b@, next + 1) is None);
            return None;
        }
        i = next + 1;
    }
    None
}

/* ---------- the tag scan ---------- */

/// A tag (or id) with the line and column where it was seen.
pub struct Tag {
    pub name: Seq<char>,
    pub line: nat,
    pub col: nat,
}

/// Elements that take no closing tag.
pub open spec fn void_element(n: Seq<char>) -> bool {
    ||| n == "area"@
    ||| n == "base"@
    ||| n == "br"@
    ||| n == "col"@
    ||| n == "embed"@
    ||| n == "hr"@
    ||| n == "img"@
    ||| n == "input"@
    ||| n == "link"@
    ||| n == "meta"@
    ||| n == "param"@
    ||| n == "source"@
    ||| n == "track"@
    ||| n == "wbr"@
    ||| n == "basefont"@
}

/// A character of a tag name (namespaced names included).
pub open spec fn tag_name_char(c: char) -> bool {
    unicode_alphanumeric(c) || c == '-' || c == ':'
}

/// End of the tag name starting at `j`.
pub open spec fn skip_tag_name(b: Seq<char>, j: int) -> int
    decreases b.len() - j,
{
    if j < 0 || j >= b.len() || !tag_name_char(b[j]) {
        j
    } else {
        skip_tag_name(b, j + 1)
    }
}

/// The attribute text of a tag read from `j` (inside a quote `q` if any):
/// returns where reading stopped (after `>` or `/>`), the characters read
/// (quotes included, the closing `>` or `/>` excluded), and whether the
/// tag closed itself with `/>`.
pub open spec fn attr_scan(b: Seq<char>, j: int, q: Option<char>) -> (int, Seq<char>, bool)
    decreases b.len() - j,
{
    if j < 0 || j >= b.len() {
        (j, Seq::empty(), false)
    } else {
        let ch = b[j];
        match q {
            Some(qc) => {
                let r = attr_scan(b, j + 1, if ch == qc { None } else { q });
                (r.0, seq![ch] + r.1, r.2)
            },
            None => if ch == '"' || ch == '\'' {
                let r = attr_scan(b, j + 1, Some(ch));
                (r.0, seq![ch] + r.1, r.2)
            } else if ch == '>' {
                (j + 1, Seq::empty(), false)
            } else if ch == '/' && j + 1 < b.len() && b[j + 1] == '>' {
                (j + 2, Seq::empty(), true)
            } else {
                let r = attr_scan(b, j + 1, None);
                (r.0, seq![ch] + r.1, r.2)
            },
        }
    }
}

/// Where a comment body read from `i` ends (past `-->`, or where fewer
/// than three characters remain), with the line and column there.
pub open spec fn comment_skip(b: Seq<char>, i: int, line: nat, col: nat) -> (int, nat, nat)
    decreases b.len() - i,
{
    if i < 0 || i + 2 >= b.len() {
        (i, line, col)
    } else {
        let l1 = if b[i] == '\n' { line + 1 } else { line };
        let c1: nat = if b[i] == '\n' { 0 } else { col };
        if b[i] == '-' && b[i + 1] == '-' && b[i + 2] == '>' {
            (i + 3, l1, c1 + 3)
        } else {
            comment_skip(b, i + 1, l1, c1 + 1)
        }
    }
}

/// Where a declaration (`<!...>` or `<?...>`) read from `i` reaches its
/// `>` (or the end), with the line and column there.
pub open spec fn decl_skip(b: Seq<char>, i: int, line: nat, col: nat) -> (int, nat, nat)
    decreases b.len() - i,
{
    if i < 0 || i >= b.len() || b[i] == '>' {
        (i, line, col)
    } else {
        let l1 = if b[i] == '\n' { line + 1 } else { line };
        let c1: nat = if b[i] == '\n' { 0 } else { col };
        decl_skip(b, i + 1, l1, c1 + 1)
    }
}

/// The scan state.
pub struct HtmlScan {
    pub i: int,
    pub line: nat,
    pub col: nat,
    pub stack: Seq<Tag>,
    pub seen: Seq<Tag>,
    pub penalties: nat,
    pub notes: Seq<NoteView>,
}

/// Index of the first id seen with this value.
pub open spec fn first_seen_from(seen: Seq<Tag>, v: Seq<char>, k: int) -> Option<int>
    decreases seen.len() - k,
{
    if k < 0 || k >= seen.len() {
        None
    } else if seen[k].name == v {
        Some(k)
    } else {
        first_seen_from(seen, v, k + 1)
    }
}

pub open spec fn mismatch_msg(top: Tag, lname: Seq<char>) -> Seq<char> {
    "Expected </"@ + top.name + "> but found </"@ + lname + "> (opened at line "@ + dec(top.line)
        + ", col "@ + dec(top.col) + ")"@
}

pub open spec fn stray_msg(lname: Seq<char>) -> Seq<char> {
    "Stray closing </"@ + lname + ">"@
}

pub open spec fn dup_id_msg(v: Seq<char>, first: Tag) -> Seq<char> {
    "Duplicate id=\""@ + v + "\" (first seen at line "@ + dec(first.line) + ", col "@ + dec(first.col)
        + ")"@
}

pub open spec fn unclosed_msg(t: Tag) -> Seq<char> {
    "Unclosed <"@ + t.name + "> (opened at line "@ + dec(t.line) + ", col "@ + dec(t.col) + ")"@
}

/// The effect of a complete tag on the stack, the ids seen, the penalty
/// and the notes.
pub open spec fn tag_effect(
    st: HtmlScan,
    lname: Seq<char>,
    closing: bool,
    attr: Seq<char>,
    self_closing: bool,
    tag_line: nat,
    tag_col: nat,
) -> HtmlScan {
    if closing {
        if st.stack.len() > 0 {
            let top = st.stack.last();
            let bad = top.name != lname;
            HtmlScan {
                stack: st.stack.drop_last(),
                penalties: st.penalties + if bad { 8nat } else { 0nat },
                notes: st.notes + note_if(
                    bad,
                    note(tag_line, "html_mismatched_tag"@, "warn"@, mismatch_msg(top, lname)),
                ),
                ..st
            }
        } else {
            HtmlScan {
                penalties: st.penalties + 6,
                notes: st.notes + seq![note(tag_line, "html_stray_closing_tag"@, "warn"@, stray_msg(lname))],
                ..st
            }
        }
    } else {
        let stack = if void_element(lname) || self_closing {
            st.stack
        } else {
            st.stack.push(Tag { name: lname, line: tag_line, col: tag_col })
        };
        let no_alt = lname == "img"@ && !contains(lower(attr), "alt="@);
        let notes1 = st.notes + note_if(
            no_alt,
            note(tag_line, "html_img_missing_alt"@, "info"@, "Image tag missing alt attribute"@),
        );
        let pen1 = st.penalties + if no_alt { 2nat } else { 0nat };
        match id_attr(attr) {
            Some(v) => match first_seen_from(st.seen, v, 0) {
                Some(k) => HtmlScan {
                    stack,
                    penalties: pen1 + 5,
                    notes: notes1 + seq![
                        note(tag_line, "html_duplicate_id"@, "warn"@, dup_id_msg(v, st.seen[k])),
                    ],
                    ..st
                },
                None => HtmlScan {
                    stack,
                    seen: st.seen.push(Tag { name: v, line: tag_line, col: tag_col }),
                    penalties: pen1,
                    notes: notes1,
                    ..st
                },
            },
            None => HtmlScan { stack, penalties: pen1, notes: notes1, ..st },
        }
    }
}

/// A start tag opens an element that awaits its closing tag exactly when
/// it is neither self-closing (`/>`) nor one of the fifteen void elements
/// area, base, br, col, embed, hr, img, input, link, meta, param, source,
/// track, wbr and basefont; those leave the open elements as they were, so
/// `<p>a<br>b</p>` closes its `<p>` cleanly.
pub proof fn lemma_start_tag_opens(
    st: HtmlScan,
    lname: Seq<char>,
    attr: Seq<char>,
    self_closing: bool,
    tag_line: nat,
    tag_col: nat,
)
    ensures
        ({
            let r = tag_effect(st, lname, false, attr, self_closing, tag_line, tag_col);
            let void = lname == "area"@ || lname == "base"@ || lname == "br"@ || lname == "col"@
                || lname == "embed"@ || lname == "hr"@ || lname == "img"@ || lname == "input"@
                || lname == "link"@ || lname == "meta"@ || lname == "param"@ || lname == "source"@
                || lname == "track"@ || lname == "wbr"@ || lname == "basefont"@;
            &&& (void || self_closing) ==> r.stack == st.stack
            &&& !(void || self_closing) ==> r.stack == st.stack.push(
                Tag { name: lname, line: tag_line, col: tag_col },
            )
        }),
{
}

/// An `img` start tag whose attributes (in any case) hold no `alt=` costs
/// at least 2 and gets an `html_img_missing_alt` note right after the notes
/// before it; any other start tag (another name, or with `alt=`) gets no
/// such note.
pub proof fn lemma_img_alt(
    st: HtmlScan,
    lname: Seq<char>,
    attr: Seq<char>,
    self_closing: bool,
    tag_line: nat,
    tag_col: nat,
)
    ensures
        ({
            let r = tag_effect(st, lname, false, attr, self_closing, tag_line, tag_col);
            &&& lname == "img"@ && !contains(lower(attr), "alt="@) ==> r.penalties >= st.penalties + 2
                && r.notes.len() > st.notes.len() && r.notes[st.notes.len() as int].kind
                == "html_img_missing_alt"@ && r.notes.take(st.notes.len() as int) == st.notes
            &&& !(lname == "img"@ && !contains(lower(attr), "alt="@)) ==> forall|j: int|
                st.notes.len() <= j < r.notes.len() ==> (#[trigger] r.notes[j]).kind
                    != "html_img_missing_alt"@
        }),
{
    reveal_strlit("html_img_missing_alt");
    reveal_strlit("html_duplicate_id");
    assert("html_img_missing_alt"@.len() != "html_duplicate_id"@.len());
    let r = tag_effect(st, lname, false, attr, self_closing, tag_line, tag_col);
    assert(r.notes.take(st.notes.len() as int) =~= st.notes);
}

/// A closing tag that names the innermost open element closes it with no
/// penalty and no note.
pub proof fn lemma_closing_tag_matches(
    st: HtmlScan,
    lname: Seq<char>,
    attr: Seq<char>,
    self_closing: bool,
    tag_line: nat,
    tag_col: nat,
)
    requires
        st.stack.len() > 0,
        st.stack.last().name == lname,
    ensures
        tag_effect(st, lname, true, attr, self_closing, tag_line, tag_col).stack == st.stack.drop_last(),
        tag_effect(st, lname, true, attr, self_closing, tag_line, tag_col).penalties == st.penalties,
        tag_effect(st, lname, true, attr, self_closing, tag_line, tag_col).notes == st.notes,
{
    assert(st.notes + Seq::<NoteView>::empty() =~= st.notes);
}

/// One step of the scan at `st.i < b.len()`.
pub open spec fn html_step(b: Seq<char>, st: HtmlScan) -> HtmlScan {
    let i = st.i;
    let c = b[i];
    let col1 = st.col + 1;
    if c == '\n' {
        HtmlScan { i: i + 1, line: st.line + 1, col: 0, ..st }
    } else if c == '<' {
        if i + 3 < b.len() && b[i + 1] == '!' && b[i + 2] == '-' && b[i + 3] == '-' {
            let r = comment_skip(b, i + 4, st.line, col1 + 3);
            HtmlScan { i: r.0, line: r.1, col: r.2, ..st }
        } else if i + 1 < b.len() && (b[i + 1] == '!' || b[i + 1] == '?') {
            let r = decl_skip(b, i + 2, st.line, col1 + 1);
            HtmlScan { i: r.0 + 1, line: r.1, col: r.2 + 1, ..st }
        } else {
            let closing = i + 1 < b.len() && b[i + 1] == '/';
            let j1 = if closing { i + 2 } else { i + 1 };
            let j2 = skip_tag_name(b, j1);
            if j2 <= j1 {
                HtmlScan { i: i + 1, col: col1, ..st }
            } else {
                let a = attr_scan(b, j2, None);
                let moved = HtmlScan { i: a.0, col: col1, ..st };
                tag_effect(moved, lower(b.subrange(j1, j2)), closing, a.1, a.2, st.line, col1)
            }
        }
    } else {
        HtmlScan { i: i + 1, col: col1, ..st }
    }
}

/// Bounds of the skip functions.
pub proof fn lemma_html_skips(b: Seq<char>, i: int, line: nat, col: nat, q: Option<char>)
    requires
        0 <= i <= b.len(),
    ensures
        i <= comment_skip(b, i, line, col).0 <= b.len(),
        i <= decl_skip(b, i, line, col).0 <= b.len(),
        i <= skip_tag_name(b, i) <= b.len(),
        i < attr_scan(b, i, q).0 <= b.len() || (i == b.len() && attr_scan(b, i, q).0 == i),
    decreases b.len() - i,
{
    if i < b.len() {
        let l1 = if b[i] == '\n' { line + 1 } else { line };
        let c1: nat = if b[i] == '\n' { 0 } else { col };
        lemma_html_skips(b, i + 1, l1, c1 + 1, None);
        lemma_html_skips(b, i + 1, line, col, Some(b[i]));
        match q {
            Some(qc) => {
                lemma_html_skips(b, i + 1, line, col, if b[i] == qc { None } else { q });
            },
            None => {},
        }
    }
}

/// The scan from `st` to the end of the text.
pub open spec fn html_run(b: Seq<char>, st: HtmlScan) -> HtmlScan
    decreases b.len() + 1 - st.i,
{
    if st.i < 0 || st.i >= b.len() {
        st
    } else {
        proof {
            lemma_html_step(b, st);
        }
        html_run(b, html_step(b, st))
    }
}

/// Each step moves forward, at most one past the end.
pub proof fn lemma_html_step(b: Seq<char>, st: HtmlScan)
    requires
        0 <= st.i < b.len(),
    ensures
        st.i < html_step(b, st).i <= b.len() + 1,
{
    let i = st.i;
    if i + 4 <= b.len() {
        lemma_html_skips(b, i + 4, st.line, st.col + 4, None);
    }
    if i + 2 <= b.len() {
        lemma_html_skips(b, i + 2, st.line, st.col + 2, None);
        lemma_html_skips(b, i + 2, st.line, st.col + 1, None);
    }
    lemma_html_skips(b, i + 1, st.line, st.col, None);
    let closing = i + 1 < b.len() && b[i + 1] == '/';
    let j1 = if closing { i + 2 } else { i + 1 };
    lemma_html_skips(b, j1, st.line, st.col, None);
    let j2 = skip_tag_name(b, j1);
    lemma_html_skips(b, j2, st.line, st.col, None);
}

/// Notes for the tags still open at the end, in the order they were opened.
pub open spec fn unclosed_notes(stack: Seq<Tag>) -> Seq<NoteView> {
    Seq::new(stack.len(), |k: int| note(stack[k].line, "html_unclosed_tag"@, "warn"@, unclosed_msg(stack[k])))
}

/// Penalty and notes of the HTML checks.
pub open spec fn html_findings(code: Seq<char>) -> (nat, Seq<NoteView>) {
    let end = html_run(
        code,
        HtmlScan { i: 0, line: 1, col: 0, stack: Seq::empty(), seen: Seq::empty(), penalties: 0, notes: Seq::empty() },
    );
    (end.penalties + 8 * end.stack.len(), end.notes + unclosed_notes(end.stack))
}

/* ---------- executable scan ---------- */

/// A tag (or id) with its position, as the scan keeps it.
struct TagPos {
    name: Vec<char>,
    line: usize,
    col: usize,
}

impl TagPos {
    spec fn tag(&self) -> Tag {
        Tag { name: self.name@, line: self.line as nat, col: self.col as nat }
    }
}

spec fn tags(v: Seq<TagPos>) -> Seq<Tag> {
    Seq::new(v.len(), |k: int| v[k].tag())
}

fn is_tag_name_char(c: char) -> (r: bool)
    ensures
        r == tag_name_char(c),
{
    char_is_alphanumeric(c) || c == '-' || c == ':'
}

fn is_void_element(n: &[char]) -> (r: bool)
    ensures
        r == void_element(n@),
{
    eq_chars(n, &to_chars("area")) || eq_chars(n, &to_chars("base")) || eq_chars(n, &to_chars("br"))
        || eq_chars(n, &to_chars("col")) || eq_chars(n, &to_chars("embed")) || eq_chars(n, &to_chars("hr"))
        || eq_chars(n, &to_chars("img")) || eq_chars(n, &to_chars("input")) || eq_chars(n, &to_chars("link"))
        || eq_chars(n, &to_chars("meta")) || eq_chars(n, &to_chars("param")) || eq_chars(
        n,
        &to_chars("source"),
    ) || eq_chars(n, &to_chars("track")) || eq_chars(n, &to_chars("wbr")) || eq_chars(
        n,
        &to_chars("basefont"),
    )
}

/// Reads a comment body from `i`.
fn skip_comment(b: &[char], i: usize, line: u128, col: usize) -> (r: (usize, u128, usize))
    requires
        i <= b@.len(),
        col <= i,
        line <= i + 1,
    ensures
        (r.0 as int, r.1 as nat, r.2 as nat) == comment_skip(b@, i as int, line as nat, col as nat),
        i <= r.0 <= b@.len(),
        r.2 <= r.0,
        r.1 <= r.0 + 1,
{
    let mut k = i;
    let mut l = line;
    let mut c = col;
    while b.len() >= 3 && k < b.len() - 2
        invariant
            i <= k <= b@.len(),
            c <= k,
            l <= k + 1,
            comment_skip(b@, k as int, l as nat, c as nat) == comment_skip(b@, i as int, line as nat, col as nat),
        decreases b@.len() - k,
    {
        if b[k] == '\n' {
            l = l + 1;
            c = 0;
        }
        if b[k] == '-' && b[k + 1] == '-' && b[k + 2] == '>' {
            return (k + 3, l, c + 3);
        }
        k = k + 1;
        c = c + 1;
    }
    (k, l, c)
}

/// Reads a declaration up to its `>` from `i`.
fn skip_declaration(b: &[char], i: usize, line: u128, col: usize) -> (r: (usize, u128, usize))
    requires
        i <= b@.len(),
        col <= i,
        line <= i + 1,
    ensures
        (r.0 as int, r.1 as nat, r.2 as nat) == decl_skip(b@, i as int, line as nat, col as nat),
        i <= r.0 <= b@.len(),
        r.2 <= r.0,
        r.1 <= r.0 + 1,
{
    let mut k = i;
    let mut l = line;
    let mut c = col;
    while k < b.len() && b[k] != '>'
        invariant
            i <= k <= b@.len(),
            c <= k,
            l <= k + 1,
            decl_skip(b@, k as int, l as nat, c as nat) == decl_skip(b@, i as int, line as nat, col as nat),
        decreases b@.len() - k,
    {
        if b[k] == '\n' {
            l = l + 1;
            c = 0;
        }
        k = k + 1;
        c = c + 1;
    }
    (k, l, c)
}

/// Reads the attribute text of a tag from `j`.
fn read_attrs(b: &[char], j: usize) -> (r: (usize, Vec<char>, bool))
    requires
        j <= b@.len(),
    ensures
        (r.0 as int, r.1@, r.2) == attr_scan(b@, j as int, None),
        j < r.0 <= b@.len() || (j == b@.len() && r.0 == j),
{
    let mut k = j;
    let mut attr: Vec<char> = Vec::new();
    let mut in_quote: Option<char> = None;
    proof {
        lemma_html_skips(b@, j as int, 0, 0, None);
    }
    while k < b.len()
        invariant
            j <= k <= b@.len(),
            j == b@.len() ==> k == j,
            ({
                let rest = attr_scan(b@, k as int, in_quote);
                (rest.0, attr@ + rest.1, rest.2) == attr_scan(b@, j as int, None)
            }),
            k == j ==> in_quote is None,
        decreases b@.len() - k,
    {
        let ch = b[k];
        let ghost before = attr@;
        match in_quote {
            Some(q) => {
                if ch == q {
                    in_quote = None;
                }
                attr.push(ch);
                k = k + 1;
                assert(attr@ =~= before + seq![ch]);
                proof {
                    let r = attr_scan(b@, k as int, in_quote);
                    assert(before + (seq![ch] + r.1) =~= attr@ + r.1);
                }
                continue;
            },
            None => {},
        }
        if ch == '"' || ch == '\'' {
            in_quote = Some(ch);
            attr.push(ch);
            k = k + 1;
            proof {
                let r = attr_scan(b@, k as int, in_quote);
                assert(before + (seq![ch] + r.1) =~= attr@ + r.1);
            }
            continue;
        }
        if ch == '>' {
            assert(attr@ + Seq::<char>::empty() =~= attr@);
            return (k + 1, attr, false);
        }
        if ch == '/' && k + 1 < b.len() && b[k + 1] == '>' {
            assert(attr@ + Seq::<char>::empty() =~= attr@);
            return (k + 2, attr, true);
        }
        attr.push(ch);
        k = k + 1;
        proof {
            let r = attr_scan(b@, k as int, in_quote);
            assert(before + (seq![ch] + r.1) =~= attr@ + r.1);
        }
    }
    assert(attr@ + Seq::<char>::empty() =~= attr@);
    (k, attr, false)
}

/// The first id seen with this value.
fn find_seen(seen: &Vec<TagPos>, v: &[char]) -> (r: Option<usize>)
    ensures
        r matches Some(k) ==> first_seen_from(tags(seen@), v@, 0) == Some(k as int) && k < seen@.len(),
        r is None ==> first_seen_from(tags(seen@), v@, 0) is None,
{
    let mut k: usize = 0;
    while k < seen.len()
        invariant
            k <= seen@.len(),
            first_seen_from(tags(seen@), v@, k as int) == first_seen_from(tags(seen@), v@, 0),
        decreases seen@.len() - k,
    {
        assert(tags(seen@)[k as int].name == seen@[k as int].name@);
        if eq_chars(&seen[k].name, v) {
            return Some(k);
        }
        k = k + 1;
    }
    None
}

/// Appends the mismatched-tag note.
fn push_mismatch_note(notes: &mut Vec<Note>, top: &TagPos, lname: &[char], tag_line: usize)
    ensures
        note_views(final(notes)@) == note_views(old(notes)@) + seq![
            note(tag_line as nat, "html_mismatched_tag"@, "warn"@, mismatch_msg(top.tag(), lname@)),
        ],
{
    let mut m: Vec<char> = Vec::new();
    push_str(&mut m, "Expected </");
    push_chars(&mut m, &top.name);
    push_str(&mut m, "> but found </");
    push_chars(&mut m, lname);
    push_str(&mut m, "> (opened at line ");
    push_dec(&mut m, top.line as u128);
    push_str(&mut m, ", col ");
    push_dec(&mut m, top.col as u128);
    push_str(&mut m, ")");
    assert(m@ =~= mismatch_msg(top.tag(), lname@));
    push_note(notes, tag_line, "html_mismatched_tag", "warn", string_from_chars(&m));
}

/// Appends the stray-closing-tag note.
fn push_stray_note(notes: &mut Vec<Note>, lname: &[char], tag_line: usize)
    ensures
        note_views(final(notes)@) == note_views(old(notes)@) + seq![
            note(tag_line as nat, "html_stray_closing_tag"@, "warn"@, stray_msg(lname@)),
        ],
{
    let mut m: Vec<char> = Vec::new();
    push_str(&mut m, "Stray closing </");
    push_chars(&mut m, lname);
    push_str(&mut m, ">");
    assert(m@ =~= stray_msg(lname@));
    push_note(notes, tag_line, "html_stray_closing_tag", "warn", string_from_chars(&m));
}

/// Appends the duplicate-id note.
fn push_dup_id_note(notes: &mut Vec<Note>, v: &[char], first: &TagPos, tag_line: usize)
    ensures
        note_views(final(notes)@) == note_views(old(notes)@) + seq![
            note(tag_line as nat, "html_duplicate_id"@, "warn"@, dup_id_msg(v@, first.tag())),
        ],
{
    let mut m: Vec<char> = Vec::new();
    push_str(&mut m, "Duplicate id=\"");
    push_chars(&mut m, v);
    push_str(&mut m, "\" (first seen at line ");
    push_dec(&mut m, first.line as u128);
    push_str(&mut m, ", col ");
    push_dec(&mut m, first.col as u128);
    push_str(&mut m, ")");
    assert(m@ =~= dup_id_msg(v@, first.tag()));
    push_note(notes, tag_line, "html_duplicate_id", "warn", string_from_chars(&m));
}

/// Applies a complete tag to the stack and the ids seen, appending its
/// notes; returns its penalty.
#[verifier::rlimit(40)]
fn apply_tag(
    stack: &mut Vec<TagPos>,
    seen: &mut Vec<TagPos>,
    notes: &mut Vec<Note>,
    lname: &[char],
    closing: bool,
    attr: &[char],
    self_closing: bool,
    tag_line: usize,
    tag_col: usize,
    Ghost(st): Ghost<HtmlScan>,
    Ghost(base): Ghost<Seq<NoteView>>,
) -> (p: u128)
    requires
        tags(old(stack)@) == st.stack,
        tags(old(seen)@) == st.seen,
        note_views(old(notes)@) == base + st.notes,
    ensures
        ({
            let e = tag_effect(st, lname@, closing, attr@, self_closing, tag_line as nat, tag_col as nat);
            &&& tags(final(stack)@) == e.stack
            &&& tags(final(seen)@) == e.seen
            &&& st.penalties + p == e.penalties
            &&& note_views(final(notes)@) == base + e.notes
        }),
        p <= 8,
        final(stack)@.len() <= old(stack)@.len() + 1,
{
    let ghost e = tag_effect(st, lname@, closing, attr@, self_closing, tag_line as nat, tag_col as nat);
    let ghost s0 = stack@;
    if closing {
        match stack.pop() {
            Some(top) => {
                assert(tags(stack@) =~= st.stack.drop_last());
                assert(top.tag() == st.stack.last());
                if !eq_chars(&top.name, lname) {
                    push_mismatch_note(notes, &top, lname, tag_line);
                    return 8;
                }
                assert(note_views(notes@) =~= base + e.notes);
                return 0;
            },
            None => {
                push_stray_note(notes, lname, tag_line);
                return 6;
            },
        }
    }
    let void = is_void_element(lname) || self_closing;
    if !void {
        let n = copy_range(lname, 0, lname.len());
        assert(n@ =~= lname@);
        stack.push(TagPos { name: n, line: tag_line, col: tag_col });
        assert(tags(stack@) =~= st.stack.push(Tag { name: lname@, line: tag_line as nat, col: tag_col as nat }));
    }
    let mut p: u128 = 0;
    let lower_attr = to_ascii_lower(attr);
    let no_alt = eq_chars(lname, &to_chars("img")) && !contains_str(&lower_attr, "alt=");
    let ghost v0 = note_views(notes@);
    if no_alt {
        push_note(notes, tag_line, "html_img_missing_alt", "info", String::from_str("Image tag missing alt attribute"));
        p = 2;
    }
    proof {
        lemma_note_if(
            v0,
            no_alt,
            note(tag_line as nat, "html_img_missing_alt"@, "info"@, "Image tag missing alt attribute"@),
        );
    }
    match extract_id_attr(attr) {
        Some(v) => {
            match find_seen(seen, &v) {
                Some(k) => {
                    assert(tags(seen@)[k as int] == seen@[k as int].tag());
                    push_dup_id_note(notes, &v, &seen[k], tag_line);
                    p = p + 5;
                },
                None => {
                    seen.push(TagPos { name: v, line: tag_line, col: tag_col });
                    assert(tags(seen@) =~= st.seen.push(Tag { name: v@, line: tag_line as nat, col: tag_col as nat }));
                },
            }
        },
        None => {},
    }
    p
}

/// What the scan reports: the open tags, the penalty, the notes.
pub open spec fn html_result(st: HtmlScan) -> (Seq<Tag>, nat, Seq<NoteView>) {
    (st.stack, st.penalties, st.notes)
}

/// HTML checks: mismatched, stray and unclosed tags (void elements and
/// self-closing tags need no closing tag), images without `alt`, and
/// duplicate `id` values; comments and declarations are skipped. Appends
/// a note per issue; returns the penalty.
#[verifier::rlimit(60)]
pub fn check_html_structure(b: &[char], notes: &mut Vec<Note>) -> (p: u128)
    ensures
        p <= 0x40_0000_0000_0000_0000,
        p == html_findings(b@).0,
        note_views(final(notes)@) == note_views(old(notes)@) + html_findings(b@).1,
{
    let ghost base = note_views(notes@);
    let ghost init = HtmlScan {
        i: 0,
        line: 1,
        col: 0,
        stack: Seq::empty(),
        seen: Seq::empty(),
        penalties: 0,
        notes: Seq::empty(),
    };
    let mut stack: Vec<TagPos> = Vec::new();
    let mut seen: Vec<TagPos> = Vec::new();
    let mut penalties: u128 = 0;
    let mut line: u128 = 1;
    let mut col: usize = 0;
    let mut i: usize = 0;
    let ghost mut rel: Seq<NoteView> = Seq::empty();
    assert(tags(stack@) =~= Seq::<Tag>::empty());
    assert(tags(seen@) =~= Seq::<Tag>::empty());
    assert(note_views(notes@) =~= base + rel);
    while i < b.len()
        invariant
            i <= b@.len(),
            col <= i,
            line <= i + 1,
            stack@.len() <= i,
            penalties <= 15 * i,
            note_views(notes@) == base + rel,
            html_result(
                html_run(
                    b@,
                    HtmlScan {
                        i: i as int,
                        line: line as nat,
                        col: col as nat,
                        stack: tags(stack@),
                        seen: tags(seen@),
                        penalties: penalties as nat,
                        notes: rel,
                    },
                ),
            ) == html_result(html_run(b@, init)),
        decreases b@.len() - i,
    {
        let ghost cur = HtmlScan {
            i: i as int,
            line: line as nat,
            col: col as nat,
            stack: tags(stack@),
            seen: tags(seen@),
            penalties: penalties as nat,
            notes: rel,
        };
        let ghost next = html_step(b@, cur);
        proof {
            lemma_html_step(b@, cur);
        }
        let c = b[i];
        if c == '\n' {
            line = line + 1;
            col = 0;
            i = i + 1;
            continue;
        }
        if c != '<' {
            col = col + 1;
            i = i + 1;
            continue;
        }
        if b.len() - i > 3 && b[i + 1] == '!' && b[i + 2] == '-' && b[i + 3] == '-' {
            let (k, l, cc) = skip_comment(b, i + 4, line, col + 4);
            i = k;
            line = l;
            col = cc;
            continue;
        }
        if i + 1 < b.len() && (b[i + 1] == '!' || b[i + 1] == '?') {
            let (k, l, cc) = skip_declaration(b, i + 2, line, col + 2);
            if k >= b.len() {
                assert(html_run(b@, cur) == html_run(b@, next));
                assert(html_run(b@, next) == next);
                i = b.len();
                line = l;
                col = cc;
                assert(html_result(html_run(b@, HtmlScan { i: i as int, line: line as nat, col: col as nat, ..next })) == html_result(next));
                continue;
            }
            i = k + 1;
            line = l;
            col = cc + 1;
            continue;
        }
        let tag_line = line as usize;
        let tag_col = col + 1;
        let closing = i + 1 < b.len() && b[i + 1] == '/';
        let j1 = if closing { i + 2 } else { i + 1 };
        let mut j2 = j1;
        while j2 < b.len() && is_tag_name_char(b[j2])
            invariant
                j1 <= j2 <= b@.len(),
                skip_tag_name(b@, j2 as int) == skip_tag_name(b@, j1 as int),
            decreases b@.len() - j2,
        {
            j2 = j2 + 1;
        }
        if j2 <= j1 {
            col = col + 1;
            i = i + 1;
            continue;
        }
        let (j3, attr, sc) = read_attrs(b, j2);
        let name = copy_range(b, j1, j2);
        let lname = to_ascii_lower(&name);
        let ghost moved = HtmlScan { i: j3 as int, col: tag_col as nat, ..cur };
        let q = apply_tag(
            &mut stack,
            &mut seen,
            notes,
            &lname,
            closing,
            &attr,
            sc,
            tag_line,
            tag_col,
            Ghost(moved),
            Ghost(base),
        );
        proof {
            rel = tag_effect(moved, lname@, closing, attr@, sc, tag_line as nat, tag_col as nat).notes;
        }
        penalties = penalties + q;
        i = j3;
        col = tag_col;
    }
    let ghost end = html_run(b@, init);
    assert(html_run(
        b@,
        HtmlScan {
            i: i as int,
            line: line as nat,
            col: col as nat,
            stack: tags(stack@),
            seen: tags(seen@),
            penalties: penalties as nat,
            notes: rel,
        },
    ).stack == tags(stack@));
    let ghost un = unclosed_notes(end.stack);
    let mut k: usize = 0;
    while k < stack.len()
        invariant
            k <= stack@.len(),
            tags(stack@) == end.stack,
            un == unclosed_notes(end.stack),
            stack@.len() <= b@.len(),
            b@.len() <= usize::MAX,
            penalties <= 15 * b@.len() + 8 * k,
            penalties == end.penalties + 8 * k,
            note_views(notes@) == base + end.notes + un.take(k as int),
        decreases stack@.len() - k,
    {
        let t = &stack[k];
        assert(end.stack[k as int] == t.tag());
        let mut m: Vec<char> = Vec::new();
        push_str(&mut m, "Unclosed <");
        push_chars(&mut m, &t.name);
        push_str(&mut m, "> (opened at line ");
        push_dec(&mut m, t.line as u128);
        push_str(&mut m, ", col ");
        push_dec(&mut m, t.col as u128);
        push_str(&mut m, ")");
        assert(m@ =~= unclosed_msg(t.tag()));
        push_note(notes, t.line, "html_unclosed_tag", "warn", string_from_chars(&m));
        assert(un.take(k + 1) =~= un.take(k as int).push(un[k as int]));
        penalties = penalties + 8;
        k = k + 1;
    }
    assert(un.take(k as int) =~= un);
    penalties
}

} // verus!
