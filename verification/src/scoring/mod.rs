//! The scoring rules and their combination.
use crate::models::{note, note_views, JudgeResp, Note, NoteView};
use crate::text::{dec, eq_chars, lines_of, push_chars, push_dec, push_str, string_from_chars, to_chars};
use axum::http::StatusCode;
use cleanliness::{cleanliness_findings, cleanliness_score, score_cleanliness};
use correctness::python::python_lines_ok;
use correctness::{correctness_findings, correctness_score, score_correctness};
use language::Language;
use structure::{score_structure, structure_findings, structure_score};
use vstd::prelude::*;
use vstd::string::StringExecFns;

pub mod cleanliness;
pub mod correctness;
pub mod language;
pub mod structure;

verus! {

/// An HTTP status code of the `http` crate.
#[verifier::external_type_specification]
#[verifier::external_body]
pub struct ExStatusCode(StatusCode);

/// The status code with the given number (100 to 999), as
/// `StatusCode::from_u16` makes it.
pub uninterp spec fn http_status(code: u16) -> StatusCode;

/// Calls `StatusCode::from_u16`, which accepts exactly the numbers 100 to
/// 999; the status made from a number is named `http_status`.
#[verifier::external_body]
fn status_from_u16(code: u16) -> (r: Option<StatusCode>)
    ensures
        r is Some <==> 100 <= code <= 999,
        r matches Some(s) ==> s == http_status(code),
{
    StatusCode::from_u16(code).ok()
}

/// A penalty count normalized by the number of lines: `100 - 100 * p / n`,
/// rounded down and clamped to `0..=100`, where an empty text counts as one
/// line. A file with 100 issues in 1000 lines scores as one with 10 issues
/// in 100 lines.
pub open spec fn per_line_score(penalties: nat, lines: nat) -> nat {
    let d = if lines == 0 { 1nat } else { lines };
    if penalties >= d {
        0
    } else {
        ((100 * (d - penalties)) / d as int) as nat
    }
}

/// A normalized score lies in `0..=100`, and a text without issues scores
/// exactly 100.
pub proof fn lemma_per_line_score_range(penalties: nat, lines: nat)
    ensures
        per_line_score(penalties, lines) <= 100,
        per_line_score(0, lines) == 100,
{
    let d: int = if lines == 0 { 1 } else { lines as int };
    if penalties < d {
        assert((100 * (d - penalties)) / d <= 100) by (nonlinear_arith)
            requires
                d > 0,
                0 <= penalties < d,
        ;
    }
    assert((100 * d) / d == 100) by (nonlinear_arith)
        requires
            d > 0,
    ;
}

/// Scores go by the density of issues, not their count: `k` times the
/// issues over `k` times the lines scores as the original (so 100 issues in
/// 1000 lines score as 10 issues in 100 lines).
pub proof fn lemma_per_line_score_scales(penalties: nat, lines: nat, k: nat)
    requires
        k >= 1,
    ensures
        per_line_score(k * penalties, k * lines) == per_line_score(penalties, lines),
{
    if lines == 0 {
        assert(k * lines == 0) by (nonlinear_arith)
            requires
                lines == 0,
        ;
        assert(k * penalties == 0 <==> penalties == 0) by (nonlinear_arith)
            requires
                k >= 1,
        ;
    } else {
        assert(k * penalties >= k * lines <==> penalties >= lines) by (nonlinear_arith)
            requires
                k >= 1,
        ;
        assert(k * lines >= 1) by (nonlinear_arith)
            requires
                k >= 1,
                lines >= 1,
        ;
        if penalties < lines {
            let a: int = 100 * (lines - penalties);
            vstd::arithmetic::div_mod::lemma_div_multiples_vanish_quotient(k as int, a, lines as int);
            assert(k * a == 100 * (k * lines - k * penalties)) by (nonlinear_arith)
                requires
                    a == 100 * (lines - penalties),
            ;
        }
    }
}

/// More issues over the same lines never raise the score.
pub proof fn lemma_per_line_score_monotone(p1: nat, p2: nat, lines: nat)
    requires
        p1 <= p2,
    ensures
        per_line_score(p2, lines) <= per_line_score(p1, lines),
{
    let d: int = if lines == 0 { 1 } else { lines as int };
    if p2 < d {
        vstd::arithmetic::div_mod::lemma_div_is_ordered(100 * (d - p2), 100 * (d - p1), d);
    }
}

/// The per-line normalized score of `penalties` issues over `total_lines`.
pub fn normalized_score(penalties: u128, total_lines: usize) -> (s: u32)
    ensures
        s == per_line_score(penalties as nat, total_lines as nat),
        s <= 100,
{
    let d: u128 = if total_lines == 0 { 1 } else { total_lines as u128 };
    if penalties >= d {
        0
    } else {
        let m: u128 = 100 * (d - penalties);
        let q = m / d;
        assert(q <= 100) by (nonlinear_arith)
            requires
                q as int == (m as int) / (d as int),
                m as int == 100 * (d - penalties),
                d > 0,
                penalties < d,
        ;
        q as u32
    }
}

/// The advice for a category score, by twenty-point band (0..=19,
/// 20..=39, 40..=59, 60..=79, 80..=100).
pub open spec fn advice(score: nat, category: Seq<char>) -> Seq<char> {
    if category == "cleanliness"@ {
        if score <= 19 {
            "Cleanliness is critically low; lots of trailing whitespace,\n                        inconsistent indentation, or extremely long lines."@
        } else if score <= 39 {
            "Poor cleanliness: fix trailing spaces and respect the max\n                        line length."@
        } else if score <= 59 {
            "Fair cleanliness; consider removing duplicate blank lines\n                        and normalizing indentation."@
        } else if score <= 79 {
            "Good cleanliness; keep lines short and avoid needless\n                        whitespace."@
        } else if score <= 100 {
            "Excellent cleanliness! Minor polish only."@
        } else {
            "Cleanliness score uncertain."@
        }
    } else if category == "correctness"@ {
        if score <= 19 {
            "Correctness very low: syntax errors or major logic issues.\n                        Run the code and address all compile/runtime errors."@
        } else if score <= 39 {
            "Low correctness: unbalanced braces/tags or missing\n                        semicolons detected."@
        } else if score <= 59 {
            "Fair correctness; watch for edge cases and simple\n                        logic mistakes."@
        } else if score <= 79 {
            "Good correctness; a few small logical issues remain."@
        } else if score <= 100 {
            "Excellent correctness; code appears to behave as expected."@
        } else {
            "Correctness score "@ + dec(score)
        }
    } else if category == "structure"@ {
        if score <= 19 {
            "Structure very poor: duplicate lines and haphazard\n                        organization."@
        } else if score <= 39 {
            "Weak structure: too many small functions or repeated code."@
        } else if score <= 59 {
            "Fair structure; consider refactoring and extracting\n                        common logic."@
        } else if score <= 79 {
            "Good structure; a little more consolidation would help."@
        } else if score <= 100 {
            "Excellent structure; code is cleanly organized."@
        } else {
            "Structure score "@ + dec(score)
        }
    } else {
        category + " score: "@ + dec(score)
    }
}

/// The twenty-point band of a score: 0..=19, 20..=39, 40..=59, 60..=79,
/// and 80 upwards.
pub open spec fn advice_band(score: nat) -> nat {
    if score >= 80 {
        4
    } else {
        score / 20
    }
}

/// Each twenty-point band of a category score gets its own advice: for
/// scores in `0..=100`, two scores of one category get the same advice
/// exactly when they lie in the same band.
pub proof fn lemma_advice_by_band(s1: nat, s2: nat, category: Seq<char>)
    requires
        s1 <= 100,
        s2 <= 100,
        category == "cleanliness"@ || category == "correctness"@ || category == "structure"@,
    ensures
        (advice(s1, category) == advice(s2, category)) <==> (advice_band(s1) == advice_band(s2)),
{
    if category == "cleanliness"@ {
        reveal_strlit("Cleanliness is critically low; lots of trailing whitespace,\n                        inconsistent indentation, or extremely long lines.");
        reveal_strlit("Poor cleanliness: fix trailing spaces and respect the max\n                        line length.");
        reveal_strlit("Fair cleanliness; consider removing duplicate blank lines\n                        and normalizing indentation.");
        reveal_strlit("Good cleanliness; keep lines short and avoid needless\n                        whitespace.");
        reveal_strlit("Excellent cleanliness! Minor polish only.");
        assert("Cleanliness is critically low; lots of trailing whitespace,\n                        inconsistent indentation, or extremely long lines."@[0] == 'C');
        assert("Poor cleanliness: fix trailing spaces and respect the max\n                        line length."@[0] == 'P');
        assert("Fair cleanliness; consider removing duplicate blank lines\n                        and normalizing indentation."@[0] == 'F');
        assert("Good cleanliness; keep lines short and avoid needless\n                        whitespace."@[0] == 'G');
        assert("Excellent cleanliness! Minor polish only."@[0] == 'E');
    } else if category == "correctness"@ {
        reveal_strlit("Correctness very low: syntax errors or major logic issues.\n                        Run the code and address all compile/runtime errors.");
        reveal_strlit("Low correctness: unbalanced braces/tags or missing\n                        semicolons detected.");
        reveal_strlit("Fair correctness; watch for edge cases and simple\n                        logic mistakes.");
        reveal_strlit("Good correctness; a few small logical issues remain.");
        reveal_strlit("Excellent correctness; code appears to behave as expected.");
        assert("Correctness very low: syntax errors or major logic issues.\n                        Run the code and address all compile/runtime errors."@[0] == 'C');
        assert("Low correctness: unbalanced braces/tags or missing\n                        semicolons detected."@[0] == 'L');
        assert("Fair correctness; watch for edge cases and simple\n                        logic mistakes."@[0] == 'F');
        assert("Good correctness; a few small logical issues remain."@[0] == 'G');
        assert("Excellent correctness; code appears to behave as expected."@[0] == 'E');
    } else if category == "structure"@ {
        reveal_strlit("Structure very poor: duplicate lines and haphazard\n                        organization.");
        reveal_strlit("Weak structure: too many small functions or repeated code.");
        reveal_strlit("Fair structure; consider refactoring and extracting\n                        common logic.");
        reveal_strlit("Good structure; a little more consolidation would help.");
        reveal_strlit("Excellent structure; code is cleanly organized.");
        assert("Structure very poor: duplicate lines and haphazard\n                        organization."@[0] == 'S');
        assert("Weak structure: too many small functions or repeated code."@[0] == 'W');
        assert("Fair structure; consider refactoring and extracting\n                        common logic."@[0] == 'F');
        assert("Good structure; a little more consolidation would help."@[0] == 'G');
        assert("Excellent structure; code is cleanly organized."@[0] == 'E');
    }
}

/// Appends the advice note for a category score: line 0, kind
/// `<category>_advice`, severity `info`, and the advice of the score's
/// twenty-point band (see `advice` and `lemma_advice_by_band`).
pub fn add_insight(score: u32, category: &str, notes: &mut Vec<Note>)
    ensures
        note_views(final(notes)@) == note_views(old(notes)@) + seq![
            note(0, category@ + "_advice"@, "info"@, advice(score as nat, category@)),
        ],
{
    let cat = to_chars(category);
    let mut m: Vec<char> = Vec::new();
    if eq_chars(&cat, &to_chars("cleanliness")) {
        if score <= 19 {
            push_str(&mut m, "Cleanliness is critically low; lots of trailing whitespace,\n                        inconsistent indentation, or extremely long lines.");
        } else if score <= 39 {
            push_str(&mut m, "Poor cleanliness: fix trailing spaces and respect the max\n                        line length.");
        } else if score <= 59 {
            push_str(&mut m, "Fair cleanliness; consider removing duplicate blank lines\n                        and normalizing indentation.");
        } else if score <= 79 {
            push_str(&mut m, "Good cleanliness; keep lines short and avoid needless\n                        whitespace.");
        } else if score <= 100 {
            push_str(&mut m, "Excellent cleanliness! Minor polish only.");
        } else {
            push_str(&mut m, "Cleanliness score uncertain.");
        }
    } else if eq_chars(&cat, &to_chars("correctness")) {
        if score <= 19 {
            push_str(&mut m, "Correctness very low: syntax errors or major logic issues.\n                        Run the code and address all compile/runtime errors.");
        } else if score <= 39 {
            push_str(&mut m, "Low correctness: unbalanced braces/tags or missing\n                        semicolons detected.");
        } else if score <= 59 {
            push_str(&mut m, "Fair correctness; watch for edge cases and simple\n                        logic mistakes.");
        } else if score <= 79 {
            push_str(&mut m, "Good correctness; a few small logical issues remain.");
        } else if score <= 100 {
            push_str(&mut m, "Excellent correctness; code appears to behave as expected.");
        } else {
            push_str(&mut m, "Correctness score ");
            push_dec(&mut m, score as u128);
        }
    } else if eq_chars(&cat, &to_chars("structure")) {
        if score <= 19 {
            push_str(&mut m, "Structure very poor: duplicate lines and haphazard\n                        organization.");
        } else if score <= 39 {
            push_str(&mut m, "Weak structure: too many small functions or repeated code.");
        } else if score <= 59 {
            push_str(&mut m, "Fair structure; consider refactoring and extracting\n                        common logic.");
        } else if score <= 79 {
            push_str(&mut m, "Good structure; a little more consolidation would help.");
        } else if score <= 100 {
            push_str(&mut m, "Excellent structure; code is cleanly organized.");
        } else {
            push_str(&mut m, "Structure score ");
            push_dec(&mut m, score as u128);
        }
    } else {
        push_chars(&mut m, &cat);
        push_str(&mut m, " score: ");
        push_dec(&mut m, score as u128);
    }
    assert(m@ =~= advice(score as nat, category@));
    let mut kind: Vec<char> = Vec::new();
    push_chars(&mut kind, &cat);
    push_str(&mut kind, "_advice");
    let ghost before = notes@;
    notes.push(
        Note {
            line: 0,
            kind: string_from_chars(&kind),
            severity: String::from_str("info"),
            msg: string_from_chars(&m),
        },
    );
    assert(note_views(notes@) =~= note_views(before) + seq![
        note(0, category@ + "_advice"@, "info"@, advice(score as nat, category@)),
    ]);
}

/// The advice note of a category.
pub open spec fn advice_note(score: nat, category: Seq<char>) -> NoteView {
    note(0, category + "_advice"@, "info"@, advice(score, category))
}

/// The overall score: the mean of the three scores, rounded down.
pub open spec fn overall_score(c1: nat, c2: nat, c3: nat) -> nat {
    (c1 + c2 + c3) / 3
}

/// Every category score of a judgement, and their mean, lies in `0..=100`.
pub proof fn lemma_scores_in_range(code: Seq<char>, lang: Language, max_line_len: nat)
    ensures
        cleanliness_score(code, max_line_len) <= 100,
        correctness_score(code, lang) <= 100,
        structure_score(code) <= 100,
        overall_score(
            cleanliness_score(code, max_line_len),
            correctness_score(code, lang),
            structure_score(code),
        ) <= 100,
{
    lemma_per_line_score_range(cleanliness_findings(code, max_line_len).0, lines_of(code).len());
    lemma_per_line_score_range(correctness_findings(code, lang).0, lines_of(code).len());
    lemma_per_line_score_range(structure_findings(code).0, lines_of(code).len());
}

/// Every category of a judgement goes by the density of its issues: each
/// score is the per-line score of the category's penalty count over the
/// text's line count, so `k` times that penalty over `k` times the lines
/// scores the same.
pub proof fn lemma_scores_by_density(code: Seq<char>, lang: Language, max_line_len: nat, k: nat)
    requires
        k >= 1,
    ensures
        cleanliness_score(code, max_line_len) == per_line_score(
            cleanliness_findings(code, max_line_len).0,
            lines_of(code).len(),
        ),
        correctness_score(code, lang) == per_line_score(
            correctness_findings(code, lang).0,
            lines_of(code).len(),
        ),
        structure_score(code) == per_line_score(structure_findings(code).0, lines_of(code).len()),
        per_line_score(k * cleanliness_findings(code, max_line_len).0, k * lines_of(code).len())
            == cleanliness_score(code, max_line_len),
        per_line_score(k * correctness_findings(code, lang).0, k * lines_of(code).len())
            == correctness_score(code, lang),
        per_line_score(k * structure_findings(code).0, k * lines_of(code).len()) == structure_score(
            code,
        ),
{
    let n = lines_of(code).len();
    lemma_per_line_score_scales(cleanliness_findings(code, max_line_len).0, n, k);
    lemma_per_line_score_scales(correctness_findings(code, lang).0, n, k);
    lemma_per_line_score_scales(structure_findings(code).0, n, k);
}

/// All notes of a judgement: cleanliness, correctness and structure
/// findings in turn, then the three advice notes.
pub open spec fn judgement_notes(code: Seq<char>, lang: Language, max_line_len: nat) -> Seq<NoteView> {
    cleanliness_findings(code, max_line_len).1 + correctness_findings(code, lang).1 + structure_findings(
        code,
    ).1 + seq![
        advice_note(cleanliness_score(code, max_line_len), "cleanliness"@),
        advice_note(correctness_score(code, lang), "correctness"@),
        advice_note(structure_score(code), "structure"@),
    ]
}

/// Every category score of `code` judged as `lang`, their mean, and the
/// notes explaining them, followed by one advice note per category; with
/// the status to answer with (200). Python code must have lines whose
/// indentation can be sliced by its character count as a byte offset.
pub fn compute_all(code: &str, lang: Language, max_line_len: usize) -> (r: (JudgeResp, StatusCode))
    requires
        lang == Language::Python ==> python_lines_ok(code@),
    ensures
        r.0.cleanliness == cleanliness_score(code@, max_line_len as nat),
        r.0.correctness == correctness_score(code@, lang),
        r.0.structure == structure_score(code@),
        r.0.overall == overall_score(
            r.0.cleanliness as nat,
            r.0.correctness as nat,
            r.0.structure as nat,
        ),
        r.0.overall == (r.0.cleanliness + r.0.correctness + r.0.structure) / 3,
        note_views(r.0.notes@) == judgement_notes(code@, lang, max_line_len as nat),
        r.1 == http_status(200),
{
    let mut notes: Vec<Note> = Vec::new();
    let c1 = score_cleanliness(code, max_line_len, &mut notes);
    let c2 = score_correctness(code, &lang, &mut notes);
    let c3 = score_structure(code, &mut notes);
    add_insight(c1, "cleanliness", &mut notes);
    add_insight(c2, "correctness", &mut notes);
    add_insight(c3, "structure", &mut notes);
    assert(note_views(notes@) =~= judgement_notes(code@, lang, max_line_len as nat));
    let overall = (c1 + c2 + c3) / 3;
    let status = status_from_u16(200).unwrap();
    (JudgeResp { cleanliness: c1, correctness: c2, structure: c3, overall, notes }, status)
}

} // verus!
