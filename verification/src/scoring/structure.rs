//! Structure: duplicated lines and blocks, density of function-like
//! declarations, parameter counts, long functions, nesting depth, long
//! if/else chains and file size.
use super::{normalized_score, per_line_score};
use crate::models::{lemma_note_if, note, note_if, note_views, push_note, Note, NoteView};
use crate::scoring::cleanliness::b2n;
use crate::text::{
    char_is_whitespace, contains, eq_chars, contains_str, copy_range, count_matches, count_matches_chars, dec,
    is_ws, lines_of, lower, push_chars, push_dec, push_str, split_lines, starts_with, starts_with_str,
    string_from_chars, texts, to_ascii_lower, to_chars, trim, trim_chars, trim_end, trim_end_chars,
    trim_start, trim_start_chars, len_sum, lemma_len_sum_mono, lemma_lines_len, lemma_trim_ends,
    lower_char, back_ws, occurs_at, skip_ws,
};
use vstd::prelude::*;
use vstd::string::StringExecFns;

verus! {

/* ---------- line normalization ---------- */

/// Tabs read as spaces.
pub open spec fn tabs_to_spaces(s: Seq<char>) -> Seq<char> {
    s.map_values(|c: char| if c == '\t' { ' ' } else { c })
}

/// Each run of whitespace from index `i` on becomes one space; `prev_space`
/// tells whether the character before `i` was whitespace.
pub open spec fn collapse_from(t: Seq<char>, i: int, prev_space: bool) -> Seq<char>
    decreases t.len() - i,
{
    if i < 0 || i >= t.len() {
        Seq::empty()
    } else if is_ws(t[i]) {
        (if prev_space { Seq::empty() } else { seq![' '] }) + collapse_from(t, i + 1, true)
    } else {
        seq![t[i]] + collapse_from(t, i + 1, false)
    }
}

/// The form of a line compared for duplicates: trailing whitespace dropped,
/// whitespace runs folded into one space, trimmed, ASCII lower-cased.
pub open spec fn normalized(s: Seq<char>) -> Seq<char> {
    lower(trim(collapse_from(tabs_to_spaces(trim_end(s)), 0, false)))
}

/// The shape of a normalized line: no ASCII upper-case letter, every
/// whitespace character a plain space, no two whitespace characters in a
/// row, and no whitespace at either end.
pub open spec fn duplicate_form(r: Seq<char>) -> bool {
    &&& forall|k: int| 0 <= k < r.len() ==> !('A' <= #[trigger] r[k] <= 'Z')
    &&& forall|k: int| 0 <= k < r.len() && is_ws(#[trigger] r[k]) ==> r[k] == ' '
    &&& forall|k: int| 0 <= k < r.len() - 1 ==> !(is_ws(#[trigger] r[k]) && is_ws(r[k + 1]))
    &&& r.len() > 0 ==> !is_ws(r[0]) && !is_ws(r.last())
}

/// Folding whitespace yields only plain spaces, never two in a row, and
/// after whitespace (`prev_space`) no leading space.
proof fn lemma_collapse_shape(t: Seq<char>, i: int, prev_space: bool)
    requires
        0 <= i <= t.len(),
    ensures
        ({
            let c = collapse_from(t, i, prev_space);
            &&& forall|k: int| 0 <= k < c.len() && is_ws(#[trigger] c[k]) ==> c[k] == ' '
            &&& forall|k: int| 0 <= k < c.len() - 1 ==> !(is_ws(#[trigger] c[k]) && is_ws(c[k + 1]))
            &&& prev_space && c.len() > 0 ==> !is_ws(c[0])
        }),
    decreases t.len() - i,
{
    if i < t.len() {
        let r = collapse_from(t, i + 1, is_ws(t[i]));
        lemma_collapse_shape(t, i + 1, is_ws(t[i]));
        let c = collapse_from(t, i, prev_space);
        if is_ws(t[i]) {
            if !prev_space {
                assert(c =~= seq![' '] + r);
                assert forall|k: int| 0 <= k < c.len() - 1 implies !(is_ws(#[trigger] c[k]) && is_ws(c[k + 1])) by {
                    if k > 0 {
                        assert(c[k] == r[k - 1] && c[k + 1] == r[k]);
                    }
                }
            } else {
                assert(c =~= r);
            }
        } else {
            assert(c =~= seq![t[i]] + r);
            assert forall|k: int| 0 <= k < c.len() - 1 implies !(is_ws(#[trigger] c[k]) && is_ws(c[k + 1])) by {
                if k > 0 {
                    assert(c[k] == r[k - 1] && c[k + 1] == r[k]);
                }
            }
        }
    }
}

/// Folding whitespace leaves a text of plain spaces, never two in a row,
/// unchanged (from `i` on, when the character before `i` is whitespace
/// exactly when `prev_space` says so).
proof fn lemma_collapse_fixed(r: Seq<char>, i: int, prev_space: bool)
    requires
        0 <= i <= r.len(),
        forall|k: int| 0 <= k < r.len() && is_ws(#[trigger] r[k]) ==> r[k] == ' ',
        forall|k: int| 0 <= k < r.len() - 1 ==> !(is_ws(#[trigger] r[k]) && is_ws(r[k + 1])),
        prev_space && i < r.len() ==> !is_ws(r[i]),
    ensures
        collapse_from(r, i, prev_space) == r.skip(i),
    decreases r.len() - i,
{
    if i < r.len() {
        if i + 1 < r.len() {
            assert(!(is_ws(r[i]) && is_ws(r[i + 1])));
        }
        lemma_collapse_fixed(r, i + 1, is_ws(r[i]));
        assert(collapse_from(r, i, prev_space) =~= r.skip(i));
    } else {
        assert(r.skip(i) =~= Seq::<char>::empty());
    }
}

/// Normalizing a line for the duplicate checks gives a line of
/// `duplicate_form`: trimmed, with no double space, only plain spaces as
/// whitespace and no ASCII upper-case letter; and normalizing it again
/// changes nothing.
pub proof fn lemma_normalized_form(s: Seq<char>)
    ensures
        duplicate_form(normalized(s)),
        trim(normalized(s)) == normalized(s),
        !contains(normalized(s), "  "@),
        normalized(normalized(s)) == normalized(s),
{
    let c = collapse_from(tabs_to_spaces(trim_end(s)), 0, false);
    lemma_collapse_shape(tabs_to_spaces(trim_end(s)), 0, false);
    let t = trim(c);
    let a = lemma_trim_ends(c);
    assert forall|k: int| 0 <= k < t.len() implies t[k] == c[a + k] by {}
    let r = normalized(s);
    assert(r == lower(t));
    assert forall|k: int| 0 <= k < r.len() && is_ws(#[trigger] r[k]) implies r[k] == ' ' by {
        assert(r[k] == lower_char(t[k]));
        assert(t[k] == c[a + k]);
    }
    assert forall|k: int| 0 <= k < r.len() - 1 implies !(is_ws(#[trigger] r[k]) && is_ws(r[k + 1])) by {
        assert(r[k] == lower_char(c[a + k]));
        assert(r[k + 1] == lower_char(c[a + k + 1]));
    }
    assert(duplicate_form(r));
    lemma_form_fixed(r);
    reveal_strlit("  ");
    if contains(r, "  "@) {
        let i = choose|i: int| occurs_at(r, "  "@, i);
        assert(r.subrange(i, i + 2)[0] == r[i]);
        assert(r.subrange(i, i + 2)[1] == r[i + 1]);
    }
}

/// A line of `duplicate_form` is its own trim and its own normalization.
#[verifier::spinoff_prover]
pub proof fn lemma_form_fixed(r: Seq<char>)
    requires
        duplicate_form(r),
    ensures
        trim(r) == r,
        normalized(r) == r,
{
    assert(trim(r) == r) by {
        lemma_trim_ends(r);
    }
    assert(trim_end(r) == r) by {
        if r.len() > 0 {
            assert(back_ws(r, r.len() as int) == r.len());
        }
        assert(trim_end(r) =~= r);
    }
    assert(tabs_to_spaces(r) == r) by {
        assert forall|k: int| 0 <= k < r.len() implies r[k] != '\t' by {
            if r[k] == '\t' {
                assert(is_ws(r[k]));
            }
        }
        assert(tabs_to_spaces(r) =~= r);
    }
    assert(collapse_from(r, 0, false) == r) by {
        lemma_collapse_fixed(r, 0, false);
        assert(r.skip(0) =~= r);
    }
    assert(lower(r) == r) by {
        assert(lower(r) =~= r);
    }
}

/// A blank line or one that starts (after leading whitespace) like a
/// comment in a common language.
pub open spec fn blank_or_comment(s: Seq<char>) -> bool {
    let t = trim_start(s);
    ||| t.len() == 0
    ||| starts_with(t, "//"@)
    ||| starts_with(t, "#"@)
    ||| starts_with(t, "/*"@)
    ||| starts_with(t, "* "@)
    ||| starts_with(t, "-- "@)
    ||| starts_with(t, "<!--"@)
    ||| starts_with(t, ";"@)
}

/// A normalized line that takes part in the duplicate checks.
pub open spec fn effective(n: Seq<char>) -> bool {
    !blank_or_comment(n) && n.len() > 0
}

/// The normalized lines.
pub open spec fn normalized_lines(lines: Seq<Seq<char>>) -> Seq<Seq<char>> {
    lines.map_values(|l: Seq<char>| normalized(l))
}

/* ---------- duplicates ---------- */

/// Line `i` is effective and repeats an earlier effective line.
pub open spec fn repeats_earlier(norms: Seq<Seq<char>>, i: int) -> bool {
    effective(norms[i]) && exists|j: int| 0 <= j < i && effective(norms[j]) && norms[j] == norms[i]
}

/// Number of effective lines among the first `n` that repeat an earlier one.
pub open spec fn duplicate_count(norms: Seq<Seq<char>>, n: nat) -> nat
    decreases n,
{
    if n == 0 {
        0
    } else {
        duplicate_count(norms, (n - 1) as nat) + b2n(repeats_earlier(norms, n - 1))
    }
}

/// The effective lines among the first `n` normalized lines, in order.
pub open spec fn effective_prefix(norms: Seq<Seq<char>>, n: nat) -> Seq<Seq<char>>
    decreases n,
{
    if n == 0 {
        Seq::empty()
    } else {
        effective_prefix(norms, (n - 1) as nat) + if effective(norms[n - 1]) {
            seq![norms[n - 1]]
        } else {
            Seq::empty()
        }
    }
}

/// The effective normalized lines, in order.
pub open spec fn effective_lines(norms: Seq<Seq<char>>) -> Seq<Seq<char>> {
    effective_prefix(norms, norms.len())
}

/// Separator between the lines of a block key.
pub open spec fn key_sep() -> Seq<char> {
    seq!['\u{241f}']
}

/// The key of the block of three effective lines starting at `k`.
pub open spec fn block_key(eff: Seq<Seq<char>>, k: int) -> Seq<char> {
    eff[k] + key_sep() + eff[k + 1] + key_sep() + eff[k + 2]
}

/// Number of blocks before `k` with the same key as block `k`.
pub open spec fn earlier_same_blocks(eff: Seq<Seq<char>>, k: int, m: int) -> nat
    decreases m,
{
    if m <= 0 {
        0
    } else {
        earlier_same_blocks(eff, k, m - 1) + b2n(block_key(eff, m - 1) == block_key(eff, k))
    }
}

/// Number of blocks, among the first `n`, at which their key is seen for
/// the second time: the number of distinct repeated three-line blocks
/// found so far.
pub open spec fn repeated_block_count(eff: Seq<Seq<char>>, n: nat) -> nat
    decreases n,
{
    if n == 0 {
        0
    } else {
        repeated_block_count(eff, (n - 1) as nat) + b2n(
            earlier_same_blocks(eff, n - 1, n - 1) == 1,
        )
    }
}

/// Number of three-line blocks of effective lines.
pub open spec fn block_total(eff: Seq<Seq<char>>) -> nat {
    if eff.len() >= 3 {
        (eff.len() - 2) as nat
    } else {
        0
    }
}

/* ---------- declarations ---------- */

/// Occurrences of function-like declaration markers in the whole text.
pub open spec fn function_like_count(code: Seq<char>) -> nat {
    count_matches(code, "fn "@) + count_matches(code, "function "@) + count_matches(code, "function("@)
        + count_matches(code, "def "@) + count_matches(code, "class "@) + count_matches(code, "struct "@)
        + count_matches(code, "enum "@) + count_matches(code, "trait "@) + count_matches(
        code,
        "interface "@,
    )
}

/// A line that starts with a declaration keyword.
pub open spec fn function_like_start(s: Seq<char>) -> bool {
    ||| starts_with(s, "fn "@)
    ||| starts_with(s, "function "@)
    ||| starts_with(s, "def "@)
    ||| starts_with(s, "class "@)
    ||| starts_with(s, "struct "@)
    ||| starts_with(s, "enum "@)
    ||| starts_with(s, "trait "@)
    ||| starts_with(s, "interface "@)
}

/// A line that looks like a signature: a declaration keyword, or a `(`
/// together with a `)` or a `{`.
pub open spec fn signature_like(s: Seq<char>) -> bool {
    function_like_start(s) || (contains(s, "("@) && (contains(s, ")"@) || contains(s, "{"@)))
}

/// A line that opens or continues an if/else chain.
pub open spec fn if_or_else(lt: Seq<char>) -> bool {
    ||| starts_with(lt, "if "@)
    ||| starts_with(lt, "if("@)
    ||| starts_with(lt, "elif "@)
    ||| starts_with(lt, "else if"@)
    ||| starts_with(lt, "else:"@)
    ||| starts_with(lt, "else "@)
    ||| starts_with(lt, "else{"@)
}

/// Commas outside nested parentheses in `t` from `i` on, `par` being the
/// nesting depth before `i`.
pub open spec fn commas_from(t: Seq<char>, i: int, par: int) -> nat
    decreases t.len() - i,
{
    if i < 0 || i >= t.len() {
        0
    } else if t[i] == '(' {
        commas_from(t, i + 1, par + 1)
    } else if t[i] == ')' {
        commas_from(t, i + 1, par - 1)
    } else if t[i] == ',' && par == 0 {
        1 + commas_from(t, i + 1, par)
    } else {
        commas_from(t, i + 1, par)
    }
}

/// The parameter count of the first parenthesized span that closes back
/// to depth zero, scanning from `i` with depth `depth` and the span start
/// `start`: zero for a blank span, else one more than its top-level commas.
pub open spec fn params_from(s: Seq<char>, i: int, depth: int, start: Option<int>) -> Option<nat>
    decreases s.len() - i,
{
    if i < 0 || i >= s.len() {
        None
    } else if s[i] == '(' {
        params_from(s, i + 1, depth + 1, if start is None { Some(i + 1) } else { start })
    } else if s[i] == ')' {
        if depth - 1 == 0 {
            match start {
                Some(st) => {
                    let inner = trim(s.subrange(st, i));
                    if inner.len() == 0 {
                        Some(0)
                    } else {
                        Some(commas_from(inner, 0, 0) + 1)
                    }
                },
                None => None,
            }
        } else {
            params_from(s, i + 1, depth - 1, start)
        }
    } else {
        params_from(s, i + 1, depth, start)
    }
}

/// Parameter count of the first balanced parenthesized span of a line.
pub open spec fn param_count(s: Seq<char>) -> Option<nat> {
    params_from(s, 0, 0, None)
}

/// Indentation width in columns from index `i` on: a space counts one, a
/// tab four; the first other character ends it.
pub open spec fn indent_cols_from(s: Seq<char>, i: int) -> nat
    decreases s.len() - i,
{
    if i < 0 || i >= s.len() {
        0
    } else if s[i] == ' ' {
        1 + indent_cols_from(s, i + 1)
    } else if s[i] == '\t' {
        4 + indent_cols_from(s, i + 1)
    } else {
        0
    }
}

/// Indentation levels: columns divided by four.
pub open spec fn indent_levels(s: Seq<char>) -> nat {
    indent_cols_from(s, 0) / 4
}

/// Net change of brace depth over a text.
pub open spec fn brace_delta(s: Seq<char>) -> int
    decreases s.len(),
{
    if s.len() == 0 {
        0
    } else {
        brace_delta(s.drop_last()) + if s.last() == '{' {
            1int
        } else if s.last() == '}' {
            -1int
        } else {
            0int
        }
    }
}

/// Deepest brace depth reached over a text when entering it at `depth`,
/// never below `max`.
pub open spec fn brace_max(s: Seq<char>, depth: int, max: int) -> int
    decreases s.len(),
{
    if s.len() == 0 {
        max
    } else {
        let m = brace_max(s.drop_last(), depth, max);
        let d = depth + brace_delta(s.drop_last());
        if s.last() == '{' && d + 1 > m {
            d + 1
        } else {
            m
        }
    }
}

/* ---------- the line scan ---------- */

/// What the line scan carries from one line to the next.
pub struct StructScan {
    pub penalties: nat,
    pub notes: Seq<NoteView>,
    pub cur_brace: int,
    pub max_brace: int,
    pub max_indent: nat,
    pub chain: nat,
    pub max_chain: nat,
    pub measuring: bool,
    pub start: nat,
    pub func_lines: nat,
    pub brace_at_start: int,
    pub indent_at_start: nat,
}

pub open spec fn many_params_msg(n: nat) -> Seq<char> {
    "Function-like declaration has many parameters ("@ + dec(n) + ")"@
}

pub open spec fn long_fn_msg(very: bool, n: nat) -> Seq<char> {
    (if very { "Very long function-like block (~"@ } else { "Long function-like block (~"@ }) + dec(n)
        + " lines)"@
}

/// The notes and penalty of the parameter check of one line.
pub open spec fn param_issue(lt: Seq<char>, line_no: nat) -> (nat, Seq<NoteView>) {
    match param_count(lt) {
        Some(n) => if signature_like(lt) && n >= 7 {
            (1, seq![note(line_no, "many_parameters"@, "info"@, many_params_msg(n))])
        } else {
            (0, Seq::empty())
        },
        None => (0, Seq::empty()),
    }
}

/// One line of the scan.
pub open spec fn struct_step(st: StructScan, raw: Seq<char>, line_no: nat) -> StructScan {
    let line = trim_end(raw);
    let levels = indent_levels(line);
    let lt = trim_start(line);
    let chain = if if_or_else(lt) {
        st.chain + 1
    } else if lt.len() > 0 {
        0
    } else {
        st.chain
    };
    let pi = param_issue(lt, line_no);
    let opens = !st.measuring && function_like_start(lt);
    let measuring = st.measuring || opens;
    let start = if opens { line_no } else { st.start };
    let brace_at_start = if opens { st.cur_brace } else { st.brace_at_start };
    let indent_at_start = if opens { levels } else { st.indent_at_start };
    let func_lines = if opens { 1nat } else if measuring { st.func_lines + 1 } else { st.func_lines };
    let blank = trim(line).len() == 0;
    let closes = measuring && ((st.cur_brace <= brace_at_start && line_no > start) || (levels
        <= indent_at_start && line_no > start && !blank) || (func_lines > 3 && blank));
    let very_long = closes && func_lines >= 120;
    let long = closes && !very_long && func_lines >= 80;
    StructScan {
        penalties: st.penalties + pi.0 + (if very_long { 2nat } else if long { 1nat } else { 0nat }),
        notes: st.notes + pi.1 + note_if(
            very_long || long,
            note(start, "long_function"@, "info"@, long_fn_msg(very_long, func_lines)),
        ),
        cur_brace: st.cur_brace + brace_delta(line),
        max_brace: brace_max(line, st.cur_brace, st.max_brace),
        max_indent: if levels > st.max_indent { levels } else { st.max_indent },
        chain,
        max_chain: if chain > st.max_chain { chain } else { st.max_chain },
        measuring: measuring && !closes,
        start,
        func_lines,
        brace_at_start,
        indent_at_start,
    }
}

/// The scan over the first `n` lines.
pub open spec fn struct_scan(lines: Seq<Seq<char>>, n: nat) -> StructScan
    decreases n,
{
    if n == 0 {
        StructScan {
            penalties: 0,
            notes: Seq::empty(),
            cur_brace: 0,
            max_brace: 0,
            max_indent: 0,
            chain: 0,
            max_chain: 0,
            measuring: false,
            start: 0,
            func_lines: 0,
            brace_at_start: 0,
            indent_at_start: 0,
        }
    } else {
        struct_step(struct_scan(lines, (n - 1) as nat), lines[n - 1], n)
    }
}

/* ---------- whole-file findings ---------- */

pub open spec fn min_nat(a: nat, b: nat) -> nat {
    if a < b {
        a
    } else {
        b
    }
}

/// Notes and penalties of the duplicate-line and duplicate-block checks.
pub open spec fn duplication_findings(code: Seq<char>) -> (nat, Seq<NoteView>) {
    let norms = normalized_lines(lines_of(code));
    let dups = duplicate_count(norms, norms.len());
    let eff = effective_lines(norms);
    let blocks = repeated_block_count(eff, block_total(eff));
    (
        min_nat(3, dups) + min_nat(blocks, 6),
        note_if(
            dups > 0,
            note(0, "duplication_lines"@, "info"@, "Duplicate (normalized) lines detected: "@ + dec(dups)),
        ) + note_if(
            blocks > 0,
            note(0, "duplication_blocks"@, "warn"@, "Repeated 3-line blocks detected: "@ + dec(blocks)),
        ),
    )
}

/// Duplication costs little and is capped: at most 3 for repeated lines and
/// at most 6 for repeated three-line blocks.
pub proof fn lemma_duplication_capped(code: Seq<char>)
    ensures
        duplication_findings(code).0 <= 9,
{
}

/// Every occurrence of a declaration marker (`fn `, `function `,
/// `function(`, `def `, `class `, `struct `, `enum `, `trait `,
/// `interface `) counts towards the declaration density.
pub proof fn lemma_declaration_markers_count(code: Seq<char>)
    ensures
        function_like_count(code) >= count_matches(code, "fn "@),
        function_like_count(code) >= count_matches(code, "function "@),
        function_like_count(code) >= count_matches(code, "function("@),
        function_like_count(code) >= count_matches(code, "def "@),
        function_like_count(code) >= count_matches(code, "class "@),
        function_like_count(code) >= count_matches(code, "struct "@),
        function_like_count(code) >= count_matches(code, "enum "@),
        function_like_count(code) >= count_matches(code, "trait "@),
        function_like_count(code) >= count_matches(code, "interface "@),
{
}

/// Blank lines and lines that start like a comment (`//`, `#`, `/*`,
/// `* `, `-- `, `<!--`, `;`) are never counted as duplicates, however often
/// they repeat.
pub proof fn lemma_comments_not_duplicates(norms: Seq<Seq<char>>, i: int)
    requires
        0 <= i < norms.len(),
        norms[i].len() == 0 || starts_with(norms[i], "//"@) || starts_with(norms[i], "#"@) || starts_with(norms[i], "/*"@) || starts_with(norms[i], "* "@) || starts_with(norms[i], "-- "@) || starts_with(norms[i], "<!--"@) || starts_with(norms[i], ";"@),
    ensures
        !repeats_earlier(norms, i),
{
    assert(blank_or_comment(norms[i])) by {
        if norms[i].len() > 0 {
            reveal_strlit("//");
            reveal_strlit("#");
            reveal_strlit("/*");
            reveal_strlit("* ");
            reveal_strlit("-- ");
            reveal_strlit("<!--");
            reveal_strlit(";");
            if starts_with(norms[i], "//"@) { assert(norms[i].subrange(0, 2)[0] == norms[i][0]); }
            if starts_with(norms[i], "#"@) { assert(norms[i].subrange(0, 1)[0] == norms[i][0]); }
            if starts_with(norms[i], "/*"@) { assert(norms[i].subrange(0, 2)[0] == norms[i][0]); }
            if starts_with(norms[i], "* "@) { assert(norms[i].subrange(0, 2)[0] == norms[i][0]); }
            if starts_with(norms[i], "-- "@) { assert(norms[i].subrange(0, 3)[0] == norms[i][0]); }
            if starts_with(norms[i], "<!--"@) { assert(norms[i].subrange(0, 4)[0] == norms[i][0]); }
            if starts_with(norms[i], ";"@) { assert(norms[i].subrange(0, 1)[0] == norms[i][0]); }
            assert(skip_ws(norms[i], 0) == 0);
            assert(trim_start(norms[i]) =~= norms[i]);
        }
    }
}

/// Notes and penalty of the declaration-density check.
pub open spec fn density_findings(code: Seq<char>) -> (nat, Seq<NoteView>) {
    let f = function_like_count(code);
    if f > 50 {
        (
            5,
            seq![
                note(
                    0,
                    "function_density"@,
                    "info"@,
                    "High count of function-like declarations ("@ + dec(f) + ")"@,
                ),
            ],
        )
    } else if f > 25 {
        (3, seq![note(0, "function_density"@, "info"@, "Elevated function-like count ("@ + dec(f) + ")"@)])
    } else {
        (0, Seq::empty())
    }
}

/// Notes and penalties of the checks on the scan's totals: brace nesting,
/// indentation nesting, if/else chains, file size.
pub open spec fn totals_findings(s: StructScan, total: nat) -> (nat, Seq<NoteView>) {
    let mb = s.max_brace;
    let nest: (nat, Seq<NoteView>) = if mb > 6 {
        (
            5,
            seq![
                note(
                    0,
                    "nesting_depth"@,
                    "warn"@,
                    "Excessive block nesting depth ({}) = "@ + dec(mb as nat),
                ),
            ],
        )
    } else if mb > 4 {
        (3, seq![note(0, "nesting_depth"@, "info"@, "High block nesting depth ({}) = "@ + dec(mb as nat))])
    } else {
        (0, Seq::empty())
    };
    let ind: (nat, Seq<NoteView>) = if s.max_indent >= 8 {
        (
            2,
            seq![
                note(
                    0,
                    "indent_nesting"@,
                    "info"@,
                    "High indentation nesting depth \u{2248} "@ + dec(s.max_indent),
                ),
            ],
        )
    } else {
        (0, Seq::empty())
    };
    let chain: (nat, Seq<NoteView>) = if s.max_chain >= 10 {
        (
            3,
            seq![
                note(
                    0,
                    "long_if_else_chain"@,
                    "warn"@,
                    "Very long if/else chain ("@ + dec(s.max_chain) + " segments)"@,
                ),
            ],
        )
    } else if s.max_chain >= 6 {
        (
            1,
            seq![
                note(
                    0,
                    "long_if_else_chain"@,
                    "info"@,
                    "Long if/else chain ("@ + dec(s.max_chain) + " segments)"@,
                ),
            ],
        )
    } else {
        (0, Seq::empty())
    };
    let size: (nat, Seq<NoteView>) = if total > 2000 {
        (
            2,
            seq![
                note(
                    0,
                    "file_size"@,
                    "info"@,
                    "Large file (~"@ + dec(total) + " lines); consider splitting modules"@,
                ),
            ],
        )
    } else {
        (0, Seq::empty())
    };
    (nest.0 + ind.0 + chain.0 + size.0, nest.1 + ind.1 + chain.1 + size.1)
}

/// The structure issues of a text: penalty count and notes, in the order
/// found.
pub open spec fn structure_findings(code: Seq<char>) -> (nat, Seq<NoteView>) {
    let lines = lines_of(code);
    let d = duplication_findings(code);
    let f = density_findings(code);
    let s = struct_scan(lines, lines.len());
    let t = totals_findings(s, lines.len());
    (d.0 + f.0 + s.penalties + t.0, d.1 + f.1 + s.notes + t.1)
}

/// The structure score: the penalty count normalized by the line count.
pub open spec fn structure_score(code: Seq<char>) -> nat {
    per_line_score(structure_findings(code).0, lines_of(code).len())
}

/* ---------- executable checks ---------- */

/// The normalized form of a line used for duplicate detection.
pub fn normalize_line_for_dups(s: &[char]) -> (r: Vec<char>)
    ensures
        r@ == normalized(s@),
{
    let te = trim_end_chars(s);
    let mut t: Vec<char> = Vec::new();
    let mut i: usize = 0;
    while i < te.len()
        invariant
            i <= te@.len(),
            t@ == tabs_to_spaces(te@.take(i as int)),
        decreases te@.len() - i,
    {
        let c = te[i];
        t.push(if c == '\t' { ' ' } else { c });
        i = i + 1;
        assert(tabs_to_spaces(te@.take(i as int)) =~= tabs_to_spaces(te@.take(i - 1)).push(
            if c == '\t' { ' ' } else { c },
        ));
    }
    assert(te@.take(te@.len() as int) =~= te@);
    let mut out: Vec<char> = Vec::new();
    let mut prev_space = false;
    let mut j: usize = 0;
    assert(out@ + collapse_from(t@, 0, false) =~= collapse_from(t@, 0, false));
    while j < t.len()
        invariant
            j <= t@.len(),
            out@ + collapse_from(t@, j as int, prev_space) == collapse_from(t@, 0, false),
        decreases t@.len() - j,
    {
        let c = t[j];
        let ws = char_is_whitespace(c);
        let ghost before = out@;
        if ws {
            if !prev_space {
                out.push(' ');
            }
        } else {
            out.push(c);
        }
        proof {
            let piece: Seq<char> = if ws {
                if prev_space { Seq::empty() } else { seq![' '] }
            } else {
                seq![c]
            };
            assert(out@ =~= before + piece);
            assert(collapse_from(t@, j as int, prev_space) == piece + collapse_from(t@, j + 1, ws));
            assert(before + (piece + collapse_from(t@, j + 1, ws)) =~= out@ + collapse_from(t@, j + 1, ws));
        }
        prev_space = ws;
        j = j + 1;
    }
    assert(collapse_from(t@, j as int, prev_space) =~= Seq::<char>::empty());
    assert(out@ =~= collapse_from(t@, 0, false));
    let tr = trim_chars(&out);
    to_ascii_lower(&tr)
}

/// Whether a line is blank or a comment.
pub fn is_blank_or_comment(s: &[char]) -> (b: bool)
    ensures
        b == blank_or_comment(s@),
{
    let t = trim_start_chars(s);
    t.len() == 0 || starts_with_str(&t, "//") || starts_with_str(&t, "#") || starts_with_str(&t, "/*")
        || starts_with_str(&t, "* ") || starts_with_str(&t, "-- ") || starts_with_str(&t, "<!--")
        || starts_with_str(&t, ";")
}

/// Number of effective lines that repeat an earlier effective line.
fn count_duplicate_lines(norms: &Vec<Vec<char>>, kept: &Vec<bool>) -> (n: usize)
    requires
        kept@.len() == norms@.len(),
        forall|i: int| 0 <= i < norms@.len() ==> kept@[i] == effective(#[trigger] texts(norms@)[i]),
    ensures
        n == duplicate_count(texts(norms@), norms@.len()),
        n <= norms@.len(),
{
    let ghost ns = texts(norms@);
    let mut dups: usize = 0;
    let mut i: usize = 0;
    while i < norms.len()
        invariant
            ns == texts(norms@),
            kept@.len() == norms@.len(),
            forall|k: int| 0 <= k < norms@.len() ==> kept@[k] == effective(#[trigger] ns[k]),
            i <= norms@.len(),
            dups == duplicate_count(ns, i as nat),
            dups <= i,
        decreases norms@.len() - i,
    {
        let mut found = false;
        if kept[i] {
            let mut j: usize = 0;
            while j < i && !found
                invariant
                    ns == texts(norms@),
                    kept@.len() == norms@.len(),
                    forall|k: int| 0 <= k < norms@.len() ==> kept@[k] == effective(#[trigger] ns[k]),
                    i < norms@.len(),
                    j <= i,
                    found == (exists|m: int| 0 <= m < j && effective(ns[m]) && ns[m] == ns[i as int]),
                decreases i - j,
            {
                if kept[j] && eq_chars(&norms[j], &norms[i]) {
                    found = true;
                }
                assert(ns[j as int] == norms@[j as int]@);
                assert(ns[i as int] == norms@[i as int]@);
                j = j + 1;
            }
            proof {
                if !found {
                    assert(j == i);
                }
            }
        }
        assert(found == repeats_earlier(ns, i as int));
        if found {
            dups = dups + 1;
        }
        i = i + 1;
    }
    dups
}

/// The effective normalized lines, in order.
fn effective_lines_of(norms: &Vec<Vec<char>>, kept: &Vec<bool>) -> (eff: Vec<Vec<char>>)
    requires
        kept@.len() == norms@.len(),
        forall|i: int| 0 <= i < norms@.len() ==> kept@[i] == effective(#[trigger] texts(norms@)[i]),
    ensures
        texts(eff@) == effective_lines(texts(norms@)),
        eff@.len() <= norms@.len(),
{
    let ghost ns = texts(norms@);
    let mut eff: Vec<Vec<char>> = Vec::new();
    let mut i: usize = 0;
    while i < norms.len()
        invariant
            ns == texts(norms@),
            kept@.len() == norms@.len(),
            forall|k: int| 0 <= k < norms@.len() ==> kept@[k] == effective(#[trigger] ns[k]),
            i <= norms@.len(),
            texts(eff@) == effective_prefix(ns, i as nat),
            eff@.len() <= i,
        decreases norms@.len() - i,
    {
        let ghost before = eff@;
        if kept[i] {
            let l = copy_range(&norms[i], 0, norms[i].len());
            assert(l@ =~= ns[i as int]);
            eff.push(l);
            assert(texts(eff@) =~= texts(before) + seq![ns[i as int]]);
        } else {
            assert(texts(eff@) =~= texts(before) + Seq::<Seq<char>>::empty());
        }
        i = i + 1;
    }
    eff
}

/// Number of three-line blocks of effective lines whose key is seen for
/// the second time.
fn count_repeated_blocks(eff: &Vec<Vec<char>>) -> (n: usize)
    ensures
        n == repeated_block_count(texts(eff@), block_total(texts(eff@))),
        n <= eff@.len(),
{
    let ghost es = texts(eff@);
    if eff.len() < 3 {
        return 0;
    }
    let total = eff.len() - 2;
    let mut keys: Vec<Vec<char>> = Vec::new();
    let mut k: usize = 0;
    while k < total
        invariant
            es == texts(eff@),
            total + 2 == eff.len(),
            k <= total,
            keys@.len() == k,
            forall|m: int| 0 <= m < k ==> (#[trigger] keys@[m])@ == block_key(es, m),
        decreases total - k,
    {
        let mut key: Vec<char> = Vec::new();
        push_chars(&mut key, &eff[k]);
        push_str(&mut key, "\u{241f}");
        push_chars(&mut key, &eff[k + 1]);
        push_str(&mut key, "\u{241f}");
        push_chars(&mut key, &eff[k + 2]);
        proof {
            reveal_strlit("\u{241f}");
        }
        assert(key@ =~= block_key(es, k as int));
        keys.push(key);
        k = k + 1;
    }
    let mut dups: usize = 0;
    let mut b: usize = 0;
    while b < total
        invariant
            es == texts(eff@),
            total == eff@.len() - 2,
            keys@.len() == total,
            forall|m: int| 0 <= m < total ==> (#[trigger] keys@[m])@ == block_key(es, m),
            b <= total,
            dups == repeated_block_count(es, b as nat),
            dups <= b,
        decreases total - b,
    {
        let mut same: usize = 0;
        let mut m: usize = 0;
        while m < b
            invariant
                es == texts(eff@),
                keys@.len() == total,
                forall|q: int| 0 <= q < total ==> (#[trigger] keys@[q])@ == block_key(es, q),
                b < total,
                m <= b,
                same == earlier_same_blocks(es, b as int, m as int),
                same <= m,
            decreases b - m,
        {
            assert(keys@[m as int]@ == block_key(es, m as int));
            assert(keys@[b as int]@ == block_key(es, b as int));
            if eq_chars(&keys[m], &keys[b]) {
                same = same + 1;
            }
            m = m + 1;
        }
        if same == 1 {
            dups = dups + 1;
        }
        b = b + 1;
    }
    dups
}

/// Occurrences of function-like declaration markers.
fn count_function_like(code: &[char]) -> (n: u128)
    ensures
        n == function_like_count(code@),
{
    let mut n: u128 = 0;
    n = n + count_matches_chars(code, &to_chars("fn ")) as u128;
    n = n + count_matches_chars(code, &to_chars("function ")) as u128;
    n = n + count_matches_chars(code, &to_chars("function(")) as u128;
    n = n + count_matches_chars(code, &to_chars("def ")) as u128;
    n = n + count_matches_chars(code, &to_chars("class ")) as u128;
    n = n + count_matches_chars(code, &to_chars("struct ")) as u128;
    n = n + count_matches_chars(code, &to_chars("enum ")) as u128;
    n = n + count_matches_chars(code, &to_chars("trait ")) as u128;
    n = n + count_matches_chars(code, &to_chars("interface ")) as u128;
    n
}

/// Top-level commas of `t` (outside nested parentheses).
fn count_top_commas(t: &[char]) -> (n: usize)
    ensures
        n == commas_from(t@, 0, 0),
        n <= t@.len(),
{
    let mut par: i128 = 0;
    let mut n: usize = 0;
    let mut i: usize = 0;
    while i < t.len()
        invariant
            i <= t@.len(),
            -(i as int) <= par <= i,
            n <= i,
            n + commas_from(t@, i as int, par as int) == commas_from(t@, 0, 0),
        decreases t@.len() - i,
    {
        let c = t[i];
        if c == '(' {
            par = par + 1;
        } else if c == ')' {
            par = par - 1;
        } else if c == ',' && par == 0 {
            n = n + 1;
        }
        i = i + 1;
    }
    n
}

/// Parameter count of the first balanced parenthesized span of a line:
/// commas at the top level of the span plus one, or zero for a blank span.
fn count_params_in_parens(s: &[char]) -> (r: Option<usize>)
    ensures
        r matches Some(n) ==> param_count(s@) == Some(n as nat),
        r is None ==> param_count(s@) is None,
{
    let mut depth: i128 = 0;
    let mut start: Option<usize> = None;
    let mut i: usize = 0;
    while i < s.len()
        invariant
            i <= s@.len(),
            -(i as int) <= depth <= i,
            start matches Some(st) ==> st <= i,
            start is None ==> depth <= 0,
            params_from(
                s@,
                i as int,
                depth as int,
                match start {
                    Some(st) => Some(st as int),
                    None => None,
                },
            ) == param_count(s@),
        decreases s@.len() - i,
    {
        let c = s[i];
        if c == '(' {
            depth = depth + 1;
            if start.is_none() {
                start = Some(i + 1);
            }
        } else if c == ')' {
            depth = depth - 1;
            if depth == 0 {
                match start {
                    Some(st) => {
                        let inner = copy_range(s, st, i);
                        let t = trim_chars(&inner);
                        if t.len() == 0 {
                            return Some(0);
                        }
                        let commas = count_top_commas(&t);
                        return Some(commas + 1);
                    },
                    None => {
                        return None;
                    },
                }
            }
        }
        i = i + 1;
    }
    None
}

/// Indentation width in columns (space 1, tab 4) and in levels of four.
fn leading_indent_columns_levels(s: &[char]) -> (r: (u128, usize))
    ensures
        r.0 == indent_cols_from(s@, 0),
        r.1 == indent_levels(s@),
        r.1 <= s@.len(),
{
    let mut cols: u128 = 0;
    let mut i: usize = 0;
    while i < s.len() && (s[i] == ' ' || s[i] == '\t')
        invariant
            i <= s@.len(),
            cols <= 4 * i,
            cols + indent_cols_from(s@, i as int) == indent_cols_from(s@, 0),
        decreases s@.len() - i,
    {
        if s[i] == ' ' {
            cols = cols + 1;
        } else {
            cols = cols + 4;
        }
        i = i + 1;
    }
    let levels = cols / 4;
    (cols, levels as usize)
}

/// Whether a line starts with a declaration keyword.
fn is_function_like_start(s: &[char]) -> (b: bool)
    ensures
        b == function_like_start(s@),
{
    starts_with_str(s, "fn ") || starts_with_str(s, "function ") || starts_with_str(s, "def ")
        || starts_with_str(s, "class ") || starts_with_str(s, "struct ") || starts_with_str(s, "enum ")
        || starts_with_str(s, "trait ") || starts_with_str(s, "interface ")
}

/// Whether a line looks like a signature.
fn looks_like_signature(s: &[char]) -> (b: bool)
    ensures
        b == signature_like(s@),
{
    is_function_like_start(s) || (contains_str(s, "(") && (contains_str(s, ")") || contains_str(s, "{")))
}

/// Whether a line opens or continues an if/else chain.
fn is_if_or_else(lt: &[char]) -> (b: bool)
    ensures
        b == if_or_else(lt@),
{
    starts_with_str(lt, "if ") || starts_with_str(lt, "if(") || starts_with_str(lt, "elif ")
        || starts_with_str(lt, "else if") || starts_with_str(lt, "else:") || starts_with_str(lt, "else ")
        || starts_with_str(lt, "else{")
}

/// Brace depth after a line and the deepest depth reached.
fn walk_braces(line: &[char], cur: i128, max: i128) -> (r: (i128, i128))
    requires
        -0x1_0000_0000_0000_0000_0000 <= cur <= 0x1_0000_0000_0000_0000_0000,
        max <= 0x1_0000_0000_0000_0000_0000,
    ensures
        r.0 == cur + brace_delta(line@),
        r.1 == brace_max(line@, cur as int, max as int),
        cur - line@.len() <= r.0 <= cur + line@.len(),
        max <= r.1,
        r.1 == max || r.1 <= cur + line@.len(),
{
    let mut c = cur;
    let mut m = max;
    let mut i: usize = 0;
    while i < line.len()
        invariant
            i <= line@.len(),
            -0x1_0000_0000_0000_0000_0000 <= cur <= 0x1_0000_0000_0000_0000_0000,
            max <= 0x1_0000_0000_0000_0000_0000,
            c == cur + brace_delta(line@.take(i as int)),
            m == brace_max(line@.take(i as int), cur as int, max as int),
            cur - i <= c <= cur + i,
            max <= m,
            m == max || m <= cur + i,
        decreases line@.len() - i,
    {
        let ch = line[i];
        assert(line@.take(i + 1).drop_last() =~= line@.take(i as int));
        assert(line@.take(i + 1).last() == ch);
        if ch == '{' {
            c = c + 1;
            if c > m {
                m = c;
            }
        } else if ch == '}' {
            c = c - 1;
        }
        i = i + 1;
    }
    assert(line@.take(line@.len() as int) =~= line@);
    (c, m)
}

/// The line-scan state carried between lines.
struct LineScan {
    penalties: u128,
    cur_brace: i128,
    max_brace: i128,
    max_indent: usize,
    chain: usize,
    max_chain: usize,
    measuring: bool,
    start: usize,
    func_lines: usize,
    brace_at_start: i128,
    indent_at_start: usize,
}

impl LineScan {
    spec fn matches(&self, s: StructScan) -> bool {
        &&& self.penalties == s.penalties
        &&& self.cur_brace == s.cur_brace
        &&& self.max_brace == s.max_brace
        &&& self.max_indent == s.max_indent
        &&& self.chain == s.chain
        &&& self.max_chain == s.max_chain
        &&& self.measuring == s.measuring
        &&& self.start == s.start
        &&& self.func_lines == s.func_lines
        &&& self.brace_at_start == s.brace_at_start
        &&& self.indent_at_start == s.indent_at_start
    }

    /// Bounds after `n` lines holding `total` characters.
    spec fn bounded(&self, n: nat, total: nat) -> bool {
        &&& self.penalties <= 3 * n
        &&& -total <= self.cur_brace <= total
        &&& 0 <= self.max_brace <= total
        &&& -total <= self.brace_at_start <= total
        &&& self.chain <= self.max_chain <= n
        &&& self.start <= n
        &&& self.func_lines <= n
        &&& total <= usize::MAX
    }
}

/// Appends the long-function note.
fn push_long_function_note(notes: &mut Vec<Note>, start: usize, very: bool, n: usize)
    ensures
        note_views(final(notes)@) == note_views(old(notes)@) + seq![
            note(start as nat, "long_function"@, "info"@, long_fn_msg(very, n as nat)),
        ],
{
    let mut m: Vec<char> = Vec::new();
    if very {
        push_str(&mut m, "Very long function-like block (~");
    } else {
        push_str(&mut m, "Long function-like block (~");
    }
    push_dec(&mut m, n as u128);
    push_str(&mut m, " lines)");
    assert(m@ =~= long_fn_msg(very, n as nat));
    push_note(notes, start, "long_function", "info", string_from_chars(&m));
}

/// Runs the parameter check of one line, appending its note.
fn check_params(notes: &mut Vec<Note>, lt: &[char], line_no: usize) -> (p: u128)
    ensures
        p == param_issue(lt@, line_no as nat).0,
        note_views(final(notes)@) == note_views(old(notes)@) + param_issue(lt@, line_no as nat).1,
{
    let ghost base = note_views(notes@);
    if looks_like_signature(lt) {
        match count_params_in_parens(lt) {
            Some(n) => {
                if n >= 7 {
                    let mut m: Vec<char> = Vec::new();
                    push_str(&mut m, "Function-like declaration has many parameters (");
                    push_dec(&mut m, n as u128);
                    push_str(&mut m, ")");
                    assert(m@ =~= many_params_msg(n as nat));
                    push_note(notes, line_no, "many_parameters", "info", string_from_chars(&m));
                    return 1;
                }
            },
            None => {},
        }
    }
    assert(note_views(notes@) =~= base + param_issue(lt@, line_no as nat).1);
    0
}

/// Runs the scan over one line.
#[verifier::rlimit(40)]
fn scan_line(
    st: &mut LineScan,
    raw: &[char],
    line_no: usize,
    notes: &mut Vec<Note>,
    Ghost(prev): Ghost<StructScan>,
    Ghost(base): Ghost<Seq<NoteView>>,
    Ghost(total): Ghost<nat>,
)
    requires
        line_no >= 1,
        old(st).matches(prev),
        old(st).bounded((line_no - 1) as nat, total),
        total + raw@.len() <= usize::MAX,
        note_views(old(notes)@) == base + prev.notes,
    ensures
        final(st).matches(struct_step(prev, raw@, line_no as nat)),
        final(st).bounded(line_no as nat, total + raw@.len()),
        note_views(final(notes)@) == base + struct_step(prev, raw@, line_no as nat).notes,
{
    let ghost next = struct_step(prev, raw@, line_no as nat);
    let line = trim_end_chars(raw);
    let (_cols, levels) = leading_indent_columns_levels(&line);
    if levels > st.max_indent {
        st.max_indent = levels;
    }
    let lt = trim_start_chars(&line);
    if is_if_or_else(&lt) {
        st.chain = st.chain + 1;
        if st.chain > st.max_chain {
            st.max_chain = st.chain;
        }
    } else if lt.len() > 0 {
        st.chain = 0;
    }
    let p = check_params(notes, &lt, line_no);
    st.penalties = st.penalties + p;
    let ghost v1 = note_views(notes@);
    assert(v1 == base + prev.notes + param_issue(lt@, line_no as nat).1);

    if !st.measuring && is_function_like_start(&lt) {
        st.measuring = true;
        st.start = line_no;
        st.func_lines = 0;
        st.brace_at_start = st.cur_brace;
        st.indent_at_start = levels;
    }
    let mut very = false;
    let mut long = false;
    if st.measuring {
        st.func_lines = st.func_lines + 1;
        let blank = trim_chars(&line).len() == 0;
        let brace_closed = st.cur_brace <= st.brace_at_start && line_no > st.start;
        let indent_closed = levels <= st.indent_at_start && line_no > st.start && !blank;
        let blank_break = st.func_lines > 3 && blank;
        if brace_closed || indent_closed || blank_break {
            if st.func_lines >= 120 {
                very = true;
                push_long_function_note(notes, st.start, true, st.func_lines);
                st.penalties = st.penalties + 2;
            } else if st.func_lines >= 80 {
                long = true;
                push_long_function_note(notes, st.start, false, st.func_lines);
                st.penalties = st.penalties + 1;
            }
            st.measuring = false;
        }
    }
    proof {
        lemma_note_if(
            v1,
            very || long,
            note(st.start as nat, "long_function"@, "info"@, long_fn_msg(very, st.func_lines as nat)),
        );
    }
    let (c, m) = walk_braces(&line, st.cur_brace, st.max_brace);
    st.cur_brace = c;
    st.max_brace = m;
    assert(note_views(notes@) == base + prev.notes + param_issue(lt@, line_no as nat).1 + note_if(
        very || long,
        note(st.start as nat, "long_function"@, "info"@, long_fn_msg(very, st.func_lines as nat)),
    ));
    assert(note_views(notes@) =~= base + next.notes);
}

/// Runs the duplicate-line and duplicate-block checks, appending their
/// notes; returns their penalty.
fn check_duplication(lines: &Vec<Vec<char>>, notes: &mut Vec<Note>, Ghost(code): Ghost<Seq<char>>) -> (p: u128)
    requires
        texts(lines@) == lines_of(code),
    ensures
        p == duplication_findings(code).0,
        p <= 9,
        note_views(final(notes)@) == note_views(old(notes)@) + duplication_findings(code).1,
{
    let ghost ls = lines_of(code);
    let ghost base = note_views(notes@);
    let mut norms: Vec<Vec<char>> = Vec::new();
    let mut kept: Vec<bool> = Vec::new();
    let mut i: usize = 0;
    while i < lines.len()
        invariant
            texts(lines@) == ls,
            i <= lines@.len(),
            norms@.len() == i,
            kept@.len() == i,
            forall|k: int| 0 <= k < i ==> (#[trigger] norms@[k])@ == normalized(ls[k]),
            forall|k: int| 0 <= k < i ==> kept@[k] == effective(#[trigger] norms@[k]@),
        decreases lines@.len() - i,
    {
        assert(lines@[i as int]@ == ls[i as int]);
        let n = normalize_line_for_dups(&lines[i]);
        let e = !is_blank_or_comment(&n) && n.len() > 0;
        norms.push(n);
        kept.push(e);
        i = i + 1;
    }
    let ghost ns = texts(norms@);
    assert(ns =~= normalized_lines(ls));
    assert forall|k: int| 0 <= k < norms@.len() implies kept@[k] == effective(#[trigger] texts(norms@)[k]) by {
        assert(texts(norms@)[k] == norms@[k]@);
    }
    let dups = count_duplicate_lines(&norms, &kept);
    let eff = effective_lines_of(&norms, &kept);
    let blocks = count_repeated_blocks(&eff);
    let mut p: u128 = 0;
    let ghost g1 = note_if(
        dups > 0,
        note(0, "duplication_lines"@, "info"@, "Duplicate (normalized) lines detected: "@ + dec(dups as nat)),
    );
    let ghost g2 = note_if(
        blocks > 0,
        note(0, "duplication_blocks"@, "warn"@, "Repeated 3-line blocks detected: "@ + dec(blocks as nat)),
    );
    if dups > 0 {
        p = if dups < 3 { dups as u128 } else { 3 };
        let mut m: Vec<char> = Vec::new();
        push_str(&mut m, "Duplicate (normalized) lines detected: ");
        push_dec(&mut m, dups as u128);
        push_note(notes, 0, "duplication_lines", "info", string_from_chars(&m));
    }
    proof {
        lemma_note_if(
            base,
            dups > 0,
            note(0, "duplication_lines"@, "info"@, "Duplicate (normalized) lines detected: "@ + dec(dups as nat)),
        );
    }
    let ghost v1 = note_views(notes@);
    if blocks > 0 {
        p = p + if blocks < 6 { blocks as u128 } else { 6 };
        let mut m: Vec<char> = Vec::new();
        push_str(&mut m, "Repeated 3-line blocks detected: ");
        push_dec(&mut m, blocks as u128);
        push_note(notes, 0, "duplication_blocks", "warn", string_from_chars(&m));
    }
    proof {
        lemma_note_if(
            v1,
            blocks > 0,
            note(0, "duplication_blocks"@, "warn"@, "Repeated 3-line blocks detected: "@ + dec(blocks as nat)),
        );
    }
    assert(note_views(notes@) == base + g1 + g2);
    assert(base + (g1 + g2) =~= base + g1 + g2);
    p
}

/// Runs the declaration-density check, appending its note; returns its
/// penalty.
fn check_density(code: &[char], notes: &mut Vec<Note>) -> (p: u128)
    ensures
        p == density_findings(code@).0,
        p <= 5,
        note_views(final(notes)@) == note_views(old(notes)@) + density_findings(code@).1,
{
    let f = count_function_like(code);
    if f > 50 {
        let mut m: Vec<char> = Vec::new();
        push_str(&mut m, "High count of function-like declarations (");
        push_dec(&mut m, f);
        push_str(&mut m, ")");
        push_note(notes, 0, "function_density", "info", string_from_chars(&m));
        5
    } else if f > 25 {
        let mut m: Vec<char> = Vec::new();
        push_str(&mut m, "Elevated function-like count (");
        push_dec(&mut m, f);
        push_str(&mut m, ")");
        push_note(notes, 0, "function_density", "info", string_from_chars(&m));
        3
    } else {
        assert(note_views(notes@) =~= note_views(old(notes)@) + density_findings(code@).1);
        0
    }
}

/// Runs the line scan over all lines; returns its final state.
fn scan_structure_lines(lines: &Vec<Vec<char>>, notes: &mut Vec<Note>, Ghost(code): Ghost<Seq<char>>) -> (st: LineScan)
    requires
        texts(lines@) == lines_of(code),
        code.len() <= usize::MAX,
    ensures
        st.matches(struct_scan(lines_of(code), lines_of(code).len())),
        st.penalties <= 3 * lines@.len(),
        0 <= st.max_brace <= usize::MAX,
        st.max_chain <= lines@.len(),
        note_views(final(notes)@) == note_views(old(notes)@) + struct_scan(
            lines_of(code),
            lines_of(code).len(),
        ).notes,
{
    let ghost ls = lines_of(code);
    let ghost base = note_views(notes@);
    proof {
        lemma_lines_len(code);
    }
    let mut st = LineScan {
        penalties: 0,
        cur_brace: 0,
        max_brace: 0,
        max_indent: 0,
        chain: 0,
        max_chain: 0,
        measuring: false,
        start: 0,
        func_lines: 0,
        brace_at_start: 0,
        indent_at_start: 0,
    };
    let mut i: usize = 0;
    assert(base + struct_scan(ls, 0).notes =~= base);
    while i < lines.len()
        invariant
            texts(lines@) == ls,
            i <= lines@.len(),
            len_sum(ls, ls.len()) <= usize::MAX,
            st.matches(struct_scan(ls, i as nat)),
            st.bounded(i as nat, len_sum(ls, i as nat)),
            note_views(notes@) == base + struct_scan(ls, i as nat).notes,
        decreases lines@.len() - i,
    {
        assert(lines@[i as int]@ == ls[i as int]);
        proof {
            lemma_len_sum_mono(ls, (i + 1) as nat, ls.len());
        }
        scan_line(
            &mut st,
            &lines[i],
            i + 1,
            notes,
            Ghost(struct_scan(ls, i as nat)),
            Ghost(base),
            Ghost(len_sum(ls, i as nat)),
        );
        i = i + 1;
    }
    st
}

/// Runs the checks on the scan's totals, appending their notes; returns
/// their penalty.
fn check_totals(
    max_brace: i128,
    max_indent: usize,
    max_chain: usize,
    total_lines: usize,
    notes: &mut Vec<Note>,
    Ghost(s): Ghost<StructScan>,
) -> (p: u128)
    requires
        s.max_brace == max_brace,
        s.max_indent == max_indent,
        s.max_chain == max_chain,
        0 <= max_brace <= usize::MAX,
    ensures
        p == totals_findings(s, total_lines as nat).0,
        p <= 12,
        note_views(final(notes)@) == note_views(old(notes)@) + totals_findings(s, total_lines as nat).1,
{
    let ghost t = totals_findings(s, total_lines as nat);
    let ghost base = note_views(notes@);
    let mut p: u128 = 0;
    if max_brace > 6 {
        let mut m: Vec<char> = Vec::new();
        push_str(&mut m, "Excessive block nesting depth ({}) = ");
        push_dec(&mut m, max_brace as u128);
        push_note(notes, 0, "nesting_depth", "warn", string_from_chars(&m));
        p = p + 5;
    } else if max_brace > 4 {
        let mut m: Vec<char> = Vec::new();
        push_str(&mut m, "High block nesting depth ({}) = ");
        push_dec(&mut m, max_brace as u128);
        push_note(notes, 0, "nesting_depth", "info", string_from_chars(&m));
        p = p + 3;
    }
    let ghost v1 = note_views(notes@);
    if max_indent >= 8 {
        let mut m: Vec<char> = Vec::new();
        push_str(&mut m, "High indentation nesting depth \u{2248} ");
        push_dec(&mut m, max_indent as u128);
        push_note(notes, 0, "indent_nesting", "info", string_from_chars(&m));
        p = p + 2;
    }
    let ghost v2 = note_views(notes@);
    if max_chain >= 10 {
        let mut m: Vec<char> = Vec::new();
        push_str(&mut m, "Very long if/else chain (");
        push_dec(&mut m, max_chain as u128);
        push_str(&mut m, " segments)");
        push_note(notes, 0, "long_if_else_chain", "warn", string_from_chars(&m));
        p = p + 3;
    } else if max_chain >= 6 {
        let mut m: Vec<char> = Vec::new();
        push_str(&mut m, "Long if/else chain (");
        push_dec(&mut m, max_chain as u128);
        push_str(&mut m, " segments)");
        push_note(notes, 0, "long_if_else_chain", "info", string_from_chars(&m));
        p = p + 1;
    }
    let ghost v3 = note_views(notes@);
    if total_lines > 2000 {
        let mut m: Vec<char> = Vec::new();
        push_str(&mut m, "Large file (~");
        push_dec(&mut m, total_lines as u128);
        push_str(&mut m, " lines); consider splitting modules");
        push_note(notes, 0, "file_size", "info", string_from_chars(&m));
        p = p + 2;
    }
    assert(note_views(notes@) =~= base + t.1);
    p
}

/// The structure score of `code` (0..=100, per-line normalized), with a
/// note appended for each issue found.
#[verifier::spinoff_prover]
pub fn score_structure(code: &str, notes: &mut Vec<Note>) -> (s: u32)
    ensures
        s == structure_score(code@),
        s <= 100,
        note_views(final(notes)@) == note_views(old(notes)@) + structure_findings(code@).1,
{
    let ghost base = note_views(notes@);
    let chars = to_chars(code);
    let raw_lines = split_lines(&chars);
    let total_lines = raw_lines.len();
    let ghost ls = lines_of(code@);

    let p1 = check_duplication(&raw_lines, notes, Ghost(code@));
    let ghost v1 = note_views(notes@);
    let p2 = check_density(&chars, notes);
    let ghost v2 = note_views(notes@);
    assert(code@.len() == chars.len());
    let st = scan_structure_lines(&raw_lines, notes, Ghost(code@));
    let ghost v3 = note_views(notes@);
    let ghost sc = struct_scan(ls, ls.len());
    let p3 = check_totals(st.max_brace, st.max_indent, st.max_chain, total_lines, notes, Ghost(sc));
    let penalties = p1 + p2 + st.penalties + p3;
    let ghost d = duplication_findings(code@);
    let ghost f = density_findings(code@);
    let ghost t = totals_findings(sc, ls.len());
    assert(note_views(notes@) == base + d.1 + f.1 + sc.notes + t.1);
    assert(structure_findings(code@).1 == d.1 + f.1 + sc.notes + t.1);
    assert(base + (d.1 + f.1 + sc.notes + t.1) =~= base + d.1 + f.1 + sc.notes + t.1);
    normalized_score(penalties, total_lines)
}

} // verus!
