//! Correctness: bracket balance and language-specific pitfalls.
use crate::models::{note_views, Note, NoteView};
use crate::scoring::language::Language;
use crate::scoring::{lemma_per_line_score_range, normalized_score, per_line_score};
use crate::text::{lines_of, split_lines, to_chars};
use brackets::{bracket_findings, check_brackets, BracketMode};
use css::{check_css_rules, css_findings};
use html::{check_html_structure, html_findings};
use js::{check_js_comparisons_and_assignments, check_js_semicolons_better, comparison_findings, semicolon_findings};
use python::{check_python_blocks_and_common_pitfalls, python_findings, python_lines_ok};
use vstd::prelude::*;

pub mod brackets;
pub mod css;
pub mod html;
pub mod js;
pub mod python;

verus! {

/// The correctness issues of a text judged as `lang`: penalty and notes.
/// JavaScript and CSS get the bracket check with their strings and
/// comments, Python with its own; then HTML its tag checks, CSS its rule
/// checks, JavaScript its semicolon and comparison checks, Python its
/// block checks. Rust and unknown languages get none.
pub open spec fn correctness_findings(code: Seq<char>, lang: Language) -> (nat, Seq<NoteView>) {
    match lang {
        Language::Javascript => {
            let b = bracket_findings(code, BracketMode::JsCss);
            let s = semicolon_findings(code);
            let c = comparison_findings(code);
            (b.0 + s.0 + c.0, b.1 + s.1 + c.1)
        },
        Language::Css => {
            let b = bracket_findings(code, BracketMode::JsCss);
            let c = css_findings(code);
            (b.0 + c.0, b.1 + c.1)
        },
        Language::Python => {
            let b = bracket_findings(code, BracketMode::Python);
            let p = python_findings(code);
            (b.0 + p.0, b.1 + p.1)
        },
        Language::Html => html_findings(code),
        _ => (0, Seq::empty()),
    }
}

/// The correctness score: the penalty count normalized by the line count,
/// as the other categories are.
pub open spec fn correctness_score(code: Seq<char>, lang: Language) -> nat {
    per_line_score(correctness_findings(code, lang).0, lines_of(code).len())
}

/// Code judged as Rust, or as of unknown language, has no correctness rules:
/// it scores 100 and gets no correctness notes.
pub proof fn lemma_no_rules_full_marks(code: Seq<char>, lang: Language)
    requires
        lang == Language::Rust || lang == Language::Unknown,
    ensures
        correctness_score(code, lang) == 100,
        correctness_findings(code, lang).1.len() == 0,
{
    lemma_per_line_score_range(0, lines_of(code).len());
}

/// The correctness score of `code` judged as `lang` (0..=100, the penalty
/// normalized by the line count), with a note
/// appended for each issue found. Python code must have lines whose
/// indentation can be sliced by its character count as a byte offset.
pub fn score_correctness(code: &str, lang: &Language, notes: &mut Vec<Note>) -> (s: u32)
    requires
        *lang == Language::Python ==> python_lines_ok(code@),
    ensures
        s == correctness_score(code@, *lang),
        s <= 100,
        note_views(final(notes)@) == note_views(old(notes)@) + correctness_findings(code@, *lang).1,
{
    let ghost base = note_views(notes@);
    let chars = to_chars(code);
    let mut penalty: u128 = 0;
    match lang {
        Language::Javascript | Language::Css => {
            penalty = penalty + check_brackets(&chars, BracketMode::JsCss, notes);
        },
        Language::Python => {
            penalty = penalty + check_brackets(&chars, BracketMode::Python, notes);
        },
        _ => {},
    }
    let ghost v1 = note_views(notes@);
    let ghost p1 = penalty;
    match lang {
        Language::Html => {
            penalty = penalty + check_html_structure(&chars, notes);
        },
        Language::Css => {
            penalty = penalty + check_css_rules(&chars, notes);
        },
        Language::Javascript => {
            let ghost ps = penalty;
            penalty = penalty + check_js_semicolons_better(&chars, notes);
            let ghost vs = note_views(notes@);
            penalty = penalty + check_js_comparisons_and_assignments(&chars, notes);
            assert(note_views(notes@) =~= base + correctness_findings(code@, *lang).1);
        },
        Language::Python => {
            penalty = penalty + check_python_blocks_and_common_pitfalls(&chars, notes);
        },
        _ => {},
    }
    assert(note_views(notes@) =~= base + correctness_findings(code@, *lang).1);
    let lines = split_lines(&chars);
    normalized_score(penalty, lines.len())
}

} // verus!
